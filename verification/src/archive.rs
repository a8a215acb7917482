//! Tar and zip archives in memory.
use std::io::{Cursor, Read, Write};
use tar::{Archive, EntryType};
use vstd::prelude::*;
use zip::CompressionMethod;
use vstd::utf8::encode_utf8;
use crate::text::{join, split, Class};

verus! {

/// An entry to write to an archive; one without data is a directory.
#[derive(Debug)]
pub struct ArchiveEntry {
    pub path: String,
    pub data: Option<Vec<u8>>,
    /// Whether a zip archive keeps the data uncompressed.
    pub stored: bool,
}

/// What an [`ArchiveEntry`] holds.
pub struct EntryView {
    pub path: Seq<char>,
    pub data: Option<Seq<u8>>,
    pub stored: bool,
}

impl DeepView for ArchiveEntry {
    type V = EntryView;

    open spec fn deep_view(&self) -> EntryView {
        EntryView {
            path: self.path@,
            data: match self.data {
                Some(data) => Some(data@),
                None => None,
            },
            stored: self.stored,
        }
    }
}

/// Kind of a tar entry.
#[derive(Debug, Clone, Copy, PartialEq, Eq, Structural)]
pub enum TarKind {
    Directory,
    Regular,
    /// A link, a device and so on.
    Special,
}

/// An entry read from a tar archive.
#[derive(Debug)]
pub struct TarItem {
    pub path: String,
    pub kind: TarKind,
    /// The permission bits, unless they are unreadable.
    pub mode: Option<u32>,
    /// The owner, unless it is unreadable.
    pub owner: Option<u64>,
    pub data: Vec<u8>,
}

/// What a [`TarItem`] holds.
pub struct TarItemView {
    pub path: Seq<char>,
    pub kind: TarKind,
    pub mode: Option<u32>,
    pub owner: Option<u64>,
    pub data: Seq<u8>,
}

impl DeepView for TarItem {
    type V = TarItemView;

    open spec fn deep_view(&self) -> TarItemView {
        TarItemView {
            path: self.path@,
            kind: self.kind,
            mode: self.mode,
            owner: self.owner,
            data: self.data@,
        }
    }
}

/// What was read from a tar archive: the entries up to its end, or up to the failure.
#[derive(Debug)]
pub struct TarListing {
    pub items: Vec<TarItem>,
    pub failure: Option<String>,
}

/// What a [`TarListing`] holds.
pub struct TarView {
    pub items: Seq<TarItemView>,
    pub failure: Option<Seq<char>>,
}

impl DeepView for TarListing {
    type V = TarView;

    open spec fn deep_view(&self) -> TarView {
        TarView { items: self.items.deep_view(), failure: self.failure.deep_view() }
    }
}

/// The entries that reading a tar archive gives.
pub uninterp spec fn tar_listing(bytes: Seq<u8>) -> TarView;

/// `tar::Archive::entries`: the entries of an archive in their order, each with its path (bytes
/// that are no UTF-8 replaced), its kind, what `tar::Header` tells as its mode and owner, and the data
/// that is there. What it gives is a function of the bytes alone; it ends with the first entry that
/// cannot be read.
#[verifier::external_body]
pub(crate) fn read_tar(bytes: &[u8]) -> (r: TarListing)
    ensures
        r.deep_view() == tar_listing(bytes@),
{
    let mut items = vec![];
    TarListing { failure: Archive::new(bytes).entries().and_then(|mut entries| entries.try_for_each(|entry| {
        let mut entry = entry?;
        let path = String::from_utf8_lossy(&entry.path_bytes()).into_owned();
        let h = entry.header();
        let (mode, owner) = (h.mode().ok(), h.uid().ok());
        let kind = match h.entry_type() {
            EntryType::Directory => TarKind::Directory,
            EntryType::Regular => TarKind::Regular,
            _ => TarKind::Special
        };
        let mut data = vec![];
        entry.read_to_end(&mut data)?;
        Ok(items.push(TarItem { path, kind, mode, owner, data }))
    })).err().map(|e| e.to_string()), items }
}

/// Whether a path names a place below the root of an archive, in a way that all systems read alike:
/// relative, without a step up, and without characters that some systems read in their own way.
pub open spec fn is_relative_path(path: Seq<char>) -> bool {
    &&& path.len() > 0
    &&& path[0] != '/'
    &&& !path.contains('\0')
    &&& !path.contains('\\')
    &&& !path.contains(':')
    &&& !steps_up(path)
}

/// Whether a path has a segment of two dots.
pub open spec fn steps_up(path: Seq<char>) -> bool {
    split(path, Class::Only('/')).contains(seq!['.', '.'])
}

/// Whether no tar archive takes a path: it is empty or absolute, or it fits a header and has a step
/// up or a zero character.
pub open spec fn is_refused_path(path: Seq<char>) -> bool {
    ||| path.len() == 0
    ||| path[0] == '/'
    ||| encode_utf8(path).len() < TAR_NAME && (steps_up(path) || path.contains('\0'))
}

/// Length of the name in a tar header; longer names stand in an entry of their own.
pub const TAR_NAME: usize = 100;

/// Those of the first `n` segments that lead anywhere: neither empty nor a single dot.
pub open spec fn leading(segments: Seq<Seq<char>>, n: nat) -> Seq<Seq<char>>
    decreases n,
{
    if n == 0 {
        Seq::empty()
    } else if segments[n - 1].len() == 0 || segments[n - 1] == seq!['.'] {
        leading(segments, (n - 1) as nat)
    } else {
        leading(segments, (n - 1) as nat).push(segments[n - 1])
    }
}

/// A path without segments that lead nowhere. A slash at its end stays.
pub open spec fn tidied(path: Seq<char>) -> Seq<char> {
    let segments = split(path, Class::Only('/'));
    let kept = leading(segments, segments.len());
    let tidy = if kept.len() == 0 {
        seq!['.']
    } else {
        join(kept, seq!['/'])
    };
    if path.last() == '/' {
        tidy.push('/')
    } else {
        tidy
    }
}

/// The path under which a tar archive holds an entry: tidied, unless that is too long for a header.
pub open spec fn tar_path(path: Seq<char>) -> Seq<char> {
    if encode_utf8(tidied(path)).len() <= TAR_NAME {
        tidied(path)
    } else {
        path
    }
}

/// Whether all paths are relative ones.
pub open spec fn all_relative(entries: Seq<EntryView>) -> bool {
    forall|i: int| 0 <= i < entries.len() ==> is_relative_path((#[trigger] entries[i]).path)
}

/// Whether one of the paths is refused.
pub open spec fn any_refused(entries: Seq<EntryView>) -> bool {
    exists|i: int| 0 <= i < entries.len() && is_refused_path((#[trigger] entries[i]).path)
}

/// Whether a path is written to a tar archive as it stands: relative, without empty or dotted
/// segments, and without characters that some systems read in their own way.
pub open spec fn is_plain_path(path: Seq<char>) -> bool {
    &&& !path.contains('\0')
    &&& !path.contains('\\')
    &&& !path.contains(':')
    &&& forall|i: int|
        0 <= i < split(path, Class::Only('/')).len() ==> is_plain_segment(
            #[trigger] split(path, Class::Only('/'))[i],
        )
}

/// Whether a path segment is neither empty nor dots.
pub open spec fn is_plain_segment(segment: Seq<char>) -> bool {
    segment.len() > 0 && segment != seq!['.'] && segment != seq!['.', '.']
}

/// Whether all paths are plain.
pub open spec fn all_plain(entries: Seq<EntryView>) -> bool {
    forall|i: int| 0 <= i < entries.len() ==> is_plain_path((#[trigger] entries[i]).path)
}

/// Permissions of a file.
pub const FILE_MODE: u32 = 0o644;

/// Permissions of a directory.
pub const DIR_MODE: u32 = 0o755;

/// How an entry stands in a tar archive.
pub open spec fn tar_item(entry: EntryView) -> TarItemView {
    TarItemView {
        path: tar_path(entry.path),
        kind: if entry.data is Some {
            TarKind::Regular
        } else {
            TarKind::Directory
        },
        mode: Some(
            if entry.data is Some {
                FILE_MODE
            } else {
                DIR_MODE
            },
        ),
        owner: Some(0),
        data: match entry.data {
            Some(data) => data,
            None => Seq::empty(),
        },
    }
}

/// What reading a tar archive of the given entries gives.
pub open spec fn tar_of(entries: Seq<EntryView>) -> TarView {
    TarView {
        items: Seq::new(entries.len(), |i: int| tar_item(entries[i])),
        failure: None,
    }
}

/// A tar archive that is being written.
#[verifier::external_body]
pub struct TarWriter {
    builder: tar::Builder<Vec<u8>>,
}

/// The entries that a tar archive holds so far; none are known where a write went wrong.
pub uninterp spec fn tar_entries(w: TarWriter) -> Option<Seq<TarItemView>>;

/// `tar::Builder::new`: an archive without entries.
#[verifier::external_body]
fn new_tar() -> (w: TarWriter)
    ensures
        tar_entries(w) == Some(Seq::<TarItemView>::empty()),
{
    TarWriter { builder: tar::Builder::new(Vec::new()) }
}

/// `tar::Builder::append_data` with a `tar::Header::new_gnu` of the given kind, mode and owner, who
/// is the group as well. The path is split into its components, so that a relative one loses what
/// leads nowhere; one that is then too long for the header is written in full, as it was given. An
/// empty or absolute path is refused, and so is a short one with a step up or a zero character. What
/// becomes of backslashes and colons differs between systems; of that, and of long paths with a
/// step up or a zero character, nothing is said here. The numbers have to fit their fields.
#[verifier::external_body]
fn append_tar(
    w: &mut TarWriter,
    path: &str,
    kind: TarKind,
    mode: u32,
    owner: u64,
    data: &[u8],
) -> (r: Result<(), String>)
    requires
        kind != TarKind::Special,
        mode <= 0o7777777,
        owner <= 0o7777777,
    ensures
        is_refused_path(path@) ==> r is Err,
        tar_entries(*old(w)) is Some && is_relative_path(path@) ==> r is Ok && tar_entries(
            *final(w),
        ) == Some(
            tar_entries(*old(w))->Some_0.push(
                TarItemView {
                    path: tar_path(path@),
                    kind,
                    mode: Some(mode),
                    owner: Some(owner),
                    data: data@,
                },
            ),
        ),
{
    let mut header = tar::Header::new_gnu();
    header.set_entry_type(match kind { TarKind::Directory => EntryType::Directory, _ => EntryType::Regular });
    header.set_size(data.len() as u64);
    header.set_mode(mode);
    header.set_uid(owner);
    header.set_gid(owner);
    header.set_cksum();
    w.builder.append_data(&mut header, path, data).map_err(|e| e.to_string())
}

/// `tar::Builder::into_inner`: what was written is read back.
#[verifier::external_body]
fn finish_tar(w: TarWriter) -> (r: Result<Vec<u8>, String>)
    ensures
        tar_entries(w) is Some ==> r is Ok && tar_listing(r->Ok_0@) == (TarView {
            items: tar_entries(w)->Some_0,
            failure: None,
        }),
{
    w.builder.into_inner().map_err(|e| e.to_string())
}

/// Writes a tar archive. With relative paths it succeeds and what was written is read back.
pub(crate) fn write_tar(entries: &Vec<ArchiveEntry>) -> (r: Result<Vec<u8>, String>)
    ensures
        any_refused(entries.deep_view()) ==> r is Err,
        all_relative(entries.deep_view()) ==> r is Ok && tar_listing(r->Ok_0@) == tar_of(
            entries.deep_view(),
        ),
{
    let ghost all = entries.deep_view();
    let mut w = new_tar();
    let mut i: usize = 0;
    assert(tar_of(all).items.take(0) =~= Seq::empty());
    while i < entries.len()
        invariant
            i <= entries.len(),
            all == entries.deep_view(),
            forall|k: int| 0 <= k < i ==> !is_refused_path((#[trigger] all[k]).path),
            all_relative(all) ==> tar_entries(w) == Some(tar_of(all).items.take(i as int)),
        decreases entries.len() - i,
    {
        let entry = &entries[i];
        assert(all[i as int] == entry.deep_view());
        let ghost before = tar_of(all).items.take(i as int);
        let none: Vec<u8> = Vec::new();
        let wrote = match &entry.data {
            Some(data) => append_tar(
                &mut w,
                entry.path.as_str(),
                TarKind::Regular,
                FILE_MODE,
                0,
                data.as_slice(),
            ),
            None => append_tar(
                &mut w,
                entry.path.as_str(),
                TarKind::Directory,
                DIR_MODE,
                0,
                none.as_slice(),
            ),
        };
        if let Err(e) = wrote {
            return Err(e);
        }
        proof {
            assert(none@ =~= Seq::empty());
            assert(tar_of(all).items.take(i + 1) =~= before.push(tar_item(all[i as int])));
        }
        i += 1;
    }
    assert(tar_of(all).items.take(i as int) =~= tar_of(all).items);
    finish_tar(w)
}

/// An entry read from a zip archive.
#[derive(Debug)]
pub enum ZipSlot {
    /// An entry with its data.
    File { name: String, stored: bool, data: Vec<u8> },
    /// An entry whose data cannot be read, and why.
    Broken { name: String, message: String },
    /// An entry that cannot be opened, and why.
    Closed { message: String },
}

/// What a [`ZipSlot`] holds.
pub enum SlotView {
    File { name: Seq<char>, stored: bool, data: Seq<u8> },
    Broken { name: Seq<char>, message: Seq<char> },
    Closed { message: Seq<char> },
}

impl DeepView for ZipSlot {
    type V = SlotView;

    open spec fn deep_view(&self) -> SlotView {
        match *self {
            ZipSlot::File { name, stored, data } => SlotView::File {
                name: name@,
                stored,
                data: data@,
            },
            ZipSlot::Broken { name, message } => SlotView::Broken {
                name: name@,
                message: message@,
            },
            ZipSlot::Closed { message } => SlotView::Closed { message: message@ },
        }
    }
}

/// The entries that reading a zip archive gives; the message of the error for bytes that are no
/// zip archive.
pub uninterp spec fn zip_listing(bytes: Seq<u8>) -> Result<Seq<SlotView>, Seq<char>>;

/// `zip::ZipArchive::new`, and `by_index` and `read_to_end` for each entry in its order. What it
/// gives is a function of the bytes alone.
#[verifier::external_body]
pub(crate) fn read_zip(bytes: &[u8]) -> (r: Result<Vec<ZipSlot>, String>)
    ensures
        match r {
            Ok(slots) => zip_listing(bytes@) is Ok && zip_listing(bytes@)->Ok_0
                == slots.deep_view(),
            Err(e) => zip_listing(bytes@) is Err && zip_listing(bytes@)->Err_0 == e@,
        },
{
    let mut zip = zip::ZipArchive::new(Cursor::new(bytes)).map_err(|e| e.to_string())?;
    Ok((0..zip.len()).map(|index| match zip.by_index(index) {
        Err(e) => ZipSlot::Closed { message: e.to_string() },
        Ok(mut file) => {
            let (mut data, name) = (Vec::new(), file.name().to_string());
            let stored = file.compression() == CompressionMethod::Stored;
            match file.read_to_end(&mut data) {
                Ok(_) => ZipSlot::File { name, stored, data },
                Err(e) => ZipSlot::Broken { name, message: e.to_string() },
            }
        }
    }).collect())
}

/// Whether a zip entry of this name is a directory.
pub open spec fn is_dir_name(name: Seq<char>) -> bool {
    name.len() > 0 && (name.last() == '/' || name.last() == '\\')
}

/// The name under which a zip archive holds an entry.
pub open spec fn zip_name(entry: EntryView) -> Seq<char> {
    if entry.data is None && !is_dir_name(entry.path) {
        entry.path.push('/')
    } else {
        entry.path
    }
}

/// Whether no two entries have one name.
pub open spec fn names_differ(entries: Seq<EntryView>) -> bool {
    forall|i: int, j: int|
        0 <= i < j < entries.len() ==> zip_name(#[trigger] entries[i]) != zip_name(
            #[trigger] entries[j],
        )
}

/// Whether the names fit the length field of a zip archive.
pub open spec fn names_fit(entries: Seq<EntryView>) -> bool {
    forall|i: int|
        0 <= i < entries.len() ==> encode_utf8(zip_name(#[trigger] entries[i])).len() <= 0xffff
}

/// An upper bound on the size of a zip archive of the first `n` entries: their data and names, and
/// room for headers and incompressible blocks.
pub open spec fn zip_weight(entries: Seq<EntryView>, n: nat) -> nat
    decreases n,
{
    if n == 0 {
        0
    } else {
        let data = match entries[n - 1].data {
            Some(data) => data.len(),
            None => 0,
        };
        zip_weight(entries, (n - 1) as nat) + data + data / 1000 + 2 * encode_utf8(
            zip_name(entries[n - 1]),
        ).len() + 256
    }
}

/// Number of bytes in a file that a zip archive takes without being told beforehand.
pub const ZIP_BYTES: u64 = 0xffff_ffff;

/// Whether the data of an entry fits a zip archive, however badly it is compressed.
pub open spec fn is_packable(entry: EntryView) -> bool {
    entry.data matches Some(data) ==> data.len() + data.len() / 1000 + 256 < ZIP_BYTES
}

/// Whether the data of all entries fits a zip archive, however badly it is compressed.
pub open spec fn all_packable(entries: Seq<EntryView>) -> bool {
    forall|i: int| 0 <= i < entries.len() ==> is_packable(#[trigger] entries[i])
}

/// Whether the data of an entry is too much for a zip archive.
pub open spec fn is_oversized(entry: EntryView) -> bool {
    entry.data matches Some(data) && data.len() > ZIP_BYTES
}

/// Whether the data of one of the entries is too much for a zip archive.
pub open spec fn any_oversized(entries: Seq<EntryView>) -> bool {
    exists|i: int| 0 <= i < entries.len() && is_oversized(#[trigger] entries[i])
}

/// Whether entries are surely read back from a zip archive: they stay below the offsets that need a
/// 64-bit form, and are not as many as the mark that announces the 64-bit count.
pub open spec fn fits_zip(entries: Seq<EntryView>) -> bool {
    entries.len() != 0xffff && zip_weight(entries, entries.len()) < ZIP_BYTES
}

/// What reading a zip archive of the given entries gives.
pub open spec fn zip_of(entries: Seq<EntryView>) -> Seq<SlotView> {
    Seq::new(
        entries.len(),
        |i: int|
            SlotView::File {
                name: zip_name(entries[i]),
                stored: entries[i].stored || entries[i].data is None,
                data: match entries[i].data {
                    Some(data) => data,
                    None => Seq::empty(),
                },
            },
    )
}

/// Why a zip archive could not be written.
#[derive(Debug)]
pub enum ZipFault {
    /// An entry was refused.
    Refused(String),
    /// The data of an entry was refused.
    Unwritten(String),
}

/// A zip archive that is being written.
#[verifier::external_body]
pub struct ZipOutput {
    writer: zip::ZipWriter<Cursor<Vec<u8>>>,
}

/// The entries that a zip archive holds so far; none are known where a write went wrong.
pub uninterp spec fn zip_entries(w: ZipOutput) -> Option<Seq<EntryView>>;

/// Whether one of the entries has the name.
pub open spec fn has_name(entries: Seq<EntryView>, name: Seq<char>) -> bool {
    exists|i: int| 0 <= i < entries.len() && zip_name(#[trigger] entries[i]) == name
}

/// `zip::ZipWriter::new`: an archive without entries.
#[verifier::external_body]
fn new_zip() -> (w: ZipOutput)
    ensures
        zip_entries(w) == Some(Seq::<EntryView>::empty()),
{
    ZipOutput { writer: zip::ZipWriter::new(Cursor::new(Vec::new())) }
}

/// `zip::ZipWriter::add_directory`: the directory is the last entry then. A name that is in use is
/// refused; a new one is taken, if the data of the file before it could be packed. The writer panics
/// on a name that is too long for the format.
#[verifier::external_body]
fn add_zip_directory(w: &mut ZipOutput, path: &str) -> (r: Result<(), String>)
    requires
        zip_entries(*old(w)) is Some,
        encode_utf8(zip_name(directory_entry(path@))).len() <= 0xffff,
    ensures
        ({
            let before = zip_entries(*old(w))->Some_0;
            let entry = directory_entry(path@);
            &&& r is Ok ==> !has_name(before, zip_name(entry)) && zip_entries(*final(w)) == Some(
                before.push(entry),
            )
            &&& !has_name(before, zip_name(entry)) && all_packable(before) ==> r is Ok
        }),
{
    w.writer.add_directory(path, zip::write::SimpleFileOptions::default()).map_err(|e| e.to_string())
}

/// `zip::ZipWriter::start_file` with the `Stored` or the `Deflated` method: an empty file is the
/// last entry then. A name that is in use is refused; a new one is taken, if the data of the file
/// before it could be packed. The writer panics on a name that is too long for the format.
#[verifier::external_body]
fn start_zip_file(w: &mut ZipOutput, path: &str, stored: bool) -> (r: Result<(), String>)
    requires
        zip_entries(*old(w)) is Some,
        encode_utf8(path@).len() <= 0xffff,
    ensures
        ({
            let before = zip_entries(*old(w))->Some_0;
            let entry = EntryView { path: path@, data: Some(Seq::empty()), stored };
            &&& r is Ok ==> !has_name(before, path@) && zip_entries(*final(w)) == Some(
                before.push(entry),
            )
            &&& !has_name(before, path@) && all_packable(before) ==> r is Ok
        }),
{
    let method = if stored { CompressionMethod::Stored } else { CompressionMethod::Deflated };
    let options = zip::write::SimpleFileOptions::default().compression_method(method);
    w.writer.start_file(path, options).map_err(|e| e.to_string())
}

/// `write_all` on a `zip::ZipWriter`: the data is added to the file that is the last entry. It is
/// taken unless the file gets longer than 32 bits can tell; the file was not started as a large one.
#[verifier::external_body]
fn write_zip_data(w: &mut ZipOutput, data: &[u8]) -> (r: Result<(), String>)
    requires
        zip_entries(*old(w)) is Some,
        zip_entries(*old(w))->Some_0.len() > 0,
        zip_entries(*old(w))->Some_0.last().data is Some,
    ensures
        ({
            let before = zip_entries(*old(w))->Some_0;
            let after = before.drop_last().push(with_data(before.last(), data@));
            &&& r is Ok ==> zip_entries(*final(w)) == Some(after)
            &&& r is Ok <==> !is_oversized(after.last())
        }),
{
    w.writer.write_all(data).map_err(|e| e.to_string())
}

/// `zip::ZipWriter::finish`: the archive is complete, if the data of the last file could be packed.
/// Entries that differ in name are read back as they were written, also where their number takes the
/// 64-bit form. Left out are as many entries as the mark for that form, and archives whose size may
/// be the mark for 64-bit offsets: the reader takes either for an archive in that form.
#[verifier::external_body]
fn finish_zip(w: ZipOutput) -> (r: Result<Vec<u8>, String>)
    requires
        zip_entries(w) is Some,
    ensures
        all_packable(zip_entries(w)->Some_0) ==> r is Ok,
        ({
            let entries = zip_entries(w)->Some_0;
            fits_zip(entries) && names_fit(entries) && names_differ(entries) ==> r is Ok
                && zip_listing(r->Ok_0@) is Ok && zip_listing(r->Ok_0@)->Ok_0 == zip_of(entries)
        }),
{
    w.writer.finish().map(|cursor| cursor.into_inner()).map_err(|e| e.to_string())
}

/// A directory as a zip archive holds it.
pub open spec fn directory_entry(path: Seq<char>) -> EntryView {
    EntryView { path, data: None, stored: true }
}

/// A file with more data.
pub open spec fn with_data(entry: EntryView, data: Seq<u8>) -> EntryView {
    EntryView { data: Some(entry.data->Some_0 + data), ..entry }
}

/// An entry as a zip archive holds it: directories are not compressed.
spec fn zipped(entry: EntryView) -> EntryView {
    EntryView { stored: entry.stored || entry.data is None, ..entry }
}

spec fn all_zipped(entries: Seq<EntryView>) -> Seq<EntryView> {
    Seq::new(entries.len(), |i: int| zipped(entries[i]))
}

/// How a zip archive holds entries does not change what they weigh.
proof fn zipped_entries_weigh_the_same(all: Seq<EntryView>, n: nat)
    requires
        n <= all.len(),
    ensures
        zip_weight(all_zipped(all), n) == zip_weight(all, n),
    decreases n,
{
    if n > 0 {
        zipped_entries_weigh_the_same(all, (n - 1) as nat);
        assert(all_zipped(all)[n - 1] == zipped(all[n - 1]));
    }
}

/// Every entry adds its data to the weight.
proof fn entries_weigh_their_data(entries: Seq<EntryView>, n: nat)
    requires
        n <= entries.len(),
    ensures
        forall|i: int|
            0 <= i < n ==> (#[trigger] entries[i].data matches Some(data) ==> data.len()
                + data.len() / 1000 + 256 <= zip_weight(entries, n)),
    decreases n,
{
    if n > 0 {
        entries_weigh_their_data(entries, (n - 1) as nat);
    }
}

/// Entries that are surely read back can all be packed.
pub proof fn fitting_entries_are_packable(entries: Seq<EntryView>)
    requires
        fits_zip(entries),
    ensures
        all_packable(entries),
{
    entries_weigh_their_data(entries, entries.len());
    assert forall|i: int| 0 <= i < entries.len() implies is_packable(#[trigger] entries[i]) by {}
}

/// Writes a zip archive. A second entry of one name is refused, and so is data that is too much;
/// entries that differ in name and can be packed are written and read back as they were.
pub(crate) fn write_zip(entries: &Vec<ArchiveEntry>) -> (r: Result<Vec<u8>, ZipFault>)
    requires
        names_fit(entries.deep_view()),
    ensures
        r is Ok ==> names_differ(entries.deep_view()) && !any_oversized(entries.deep_view()),
        r matches Err(ZipFault::Unwritten(_)) ==> any_oversized(entries.deep_view()),
        names_differ(entries.deep_view()) && all_packable(entries.deep_view()) ==> r is Ok,
        fits_zip(entries.deep_view()) && names_differ(entries.deep_view()) ==> r is Ok
            && zip_listing(r->Ok_0@) is Ok && zip_listing(r->Ok_0@)->Ok_0 == zip_of(
            entries.deep_view(),
        ),
{
    let ghost all = entries.deep_view();
    let mut w = new_zip();
    let mut i: usize = 0;
    proof {
        assert(all_zipped(all.take(0)) =~= Seq::empty());
        if fits_zip(all) {
            fitting_entries_are_packable(all);
        }
    }
    while i < entries.len()
        invariant
            i <= entries.len(),
            all == entries.deep_view(),
            names_fit(all),
            fits_zip(all) ==> all_packable(all),
            zip_entries(w) == Some(all_zipped(all.take(i as int))),
            names_differ(all.take(i as int)),
            forall|k: int| 0 <= k < i ==> !is_oversized(#[trigger] all[k]),
        decreases entries.len() - i,
    {
        let entry = &entries[i];
        let ghost at = i as int;
        let ghost before = all_zipped(all.take(at));
        let ghost after = all_zipped(all.take(at + 1));
        let ghost this = all[at];
        proof {
            assert(this == entry.deep_view());
            assert(encode_utf8(zip_name(this)).len() <= 0xffff);
            assert(after =~= before.push(zipped(this)));
            zip_step(all, at);
        }
        match &entry.data {
            None => {
                assert(directory_entry(entry.path@) == zipped(this));
                match add_zip_directory(&mut w, entry.path.as_str()) {
                    Ok(()) => {},
                    Err(e) => {
                        return Err(ZipFault::Refused(e));
                    },
                }
            },
            Some(data) => {
                let ghost empty = EntryView {
                    path: this.path,
                    data: Some(Seq::<u8>::empty()),
                    stored: this.stored,
                };
                match start_zip_file(&mut w, entry.path.as_str(), entry.stored) {
                    Ok(()) => {},
                    Err(e) => {
                        return Err(ZipFault::Refused(e));
                    },
                }
                proof {
                    assert(before.push(empty).drop_last() =~= before);
                    assert(Seq::<u8>::empty() + data@ =~= data@);
                    assert(with_data(empty, data@) == zipped(this));
                    assert(before.push(zipped(this)).last() == zipped(this));
                    assert(all_packable(all) ==> is_packable(this));
                }
                match write_zip_data(&mut w, data.as_slice()) {
                    Ok(()) => {},
                    Err(e) => {
                        return Err(ZipFault::Unwritten(e));
                    },
                }
            },
        }
        i += 1;
    }
    proof {
        assert(all.take(i as int) =~= all);
        whole_zip(all);
    }
    match finish_zip(w) {
        Ok(bytes) => Ok(bytes),
        Err(e) => Err(ZipFault::Refused(e)),
    }
}

/// What the next entry needs: where all entries can be packed, so can those before it; where all
/// differ in name, its name is new; and where its name is new, the entries up to it differ in name.
proof fn zip_step(all: Seq<EntryView>, at: int)
    requires
        0 <= at < all.len(),
        names_differ(all.take(at)),
    ensures
        ({
            let before = all_zipped(all.take(at));
            &&& all_packable(all) ==> all_packable(before)
            &&& names_differ(all) ==> !has_name(before, zip_name(all[at]))
            &&& !has_name(before, zip_name(all[at])) ==> names_differ(all.take(at + 1))
            &&& zip_name(zipped(all[at])) == zip_name(all[at])
        }),
{
    let before = all_zipped(all.take(at));
    if all_packable(all) {
        assert forall|i: int| 0 <= i < before.len() implies is_packable(#[trigger] before[i]) by {
            assert(before[i] == zipped(all[i]));
            assert(is_packable(all[i]));
        }
    }
    if names_differ(all) && has_name(before, zip_name(all[at])) {
        let i = choose|i: int|
            0 <= i < before.len() && zip_name(#[trigger] before[i]) == zip_name(all[at]);
        assert(before[i] == zipped(all[i]));
        assert(zip_name(all[i]) != zip_name(all[at]));
    }
    if !has_name(before, zip_name(all[at])) {
        let next = all.take(at + 1);
        assert forall|i: int, j: int| 0 <= i < j < next.len() implies zip_name(#[trigger] next[i])
            != zip_name(#[trigger] next[j]) by {
            if j < at {
                assert(all.take(at)[i] == next[i] && all.take(at)[j] == next[j]);
            } else {
                assert(before[i] == zipped(next[i]));
                assert(zip_name(before[i]) != zip_name(all[at]));
            }
        }
    }
}

/// How a zip archive holds entries changes neither their names nor what is read back.
proof fn whole_zip(all: Seq<EntryView>)
    requires
        names_fit(all),
        names_differ(all),
    ensures
        names_fit(all_zipped(all)),
        names_differ(all_zipped(all)),
        all_packable(all) ==> all_packable(all_zipped(all)),
        fits_zip(all) ==> fits_zip(all_zipped(all)),
        zip_of(all_zipped(all)) == zip_of(all),
{
    let held = all_zipped(all);
    assert forall|i: int| 0 <= i < held.len() implies encode_utf8(
        zip_name(#[trigger] held[i]),
    ).len() <= 0xffff by {
        assert(zip_name(held[i]) == zip_name(all[i]));
    }
    assert forall|i: int, j: int| 0 <= i < j < held.len() implies zip_name(#[trigger] held[i])
        != zip_name(#[trigger] held[j]) by {
        assert(zip_name(held[i]) == zip_name(all[i]) && zip_name(held[j]) == zip_name(all[j]));
    }
    if all_packable(all) {
        assert forall|i: int| 0 <= i < held.len() implies is_packable(#[trigger] held[i]) by {
            assert(is_packable(all[i]));
        }
    }
    zipped_entries_weigh_the_same(all, all.len());
    assert(zip_of(held) =~= zip_of(all));
}

/// In a tar archive a file is a regular one that its owner may write and all may read, with all its
/// data, and a directory is one that all may enter; both belong to the first user.
pub proof fn archived_files_keep_their_data(entries: Seq<EntryView>, i: int)
    requires
        0 <= i < entries.len(),
    ensures
        ({
            let item = tar_of(entries).items[i];
            &&& tar_of(entries).items.len() == entries.len()
            &&& tar_of(entries).failure is None
            &&& item.owner == Some(0u64)
            &&& entries[i].data matches Some(data) ==> item.kind == TarKind::Regular && item.data
                == data && item.mode == Some(0o644u32)
            &&& entries[i].data is None ==> item.kind == TarKind::Directory && item.data.len() == 0
                && item.mode == Some(0o755u32)
        }),
{
}

/// In a zip archive a file is held under its own path, with all its data, compressed unless it was asked
/// for as it is; a directory is held without data under its path and a slash.
pub proof fn zipped_files_keep_their_data(entries: Seq<EntryView>, i: int)
    requires
        0 <= i < entries.len(),
    ensures
        zip_of(entries).len() == entries.len(),
        entries[i].data matches Some(bytes) ==> zip_of(entries)[i] == (SlotView::File {
            name: entries[i].path,
            stored: entries[i].stored,
            data: bytes,
        }),
        entries[i].data is None && entries[i].path.len() > 0 && entries[i].path.last() != '/'
            && entries[i].path.last() != '\\' ==> zip_of(entries)[i] == (SlotView::File {
            name: entries[i].path + seq!['/'],
            stored: true,
            data: Seq::empty(),
        }),
{
    assert(entries[i].path.push('/') =~= entries[i].path + seq!['/']);
}

} // verus!
