//! `.rmdoc` bundles: a zip archive of the files of one document, with paths relative to the data
//! directory.
//!
//! The device has no `zip`, so both directions go through tar: a download repacks a tar stream of
//! the device into a zip archive; an upload unpacks the archive, re-targets it to a fresh UUID, and
//! makes a tar stream of it.
use vstd::prelude::*;
use vstd::utf8::encode_utf8;
use crate::archive::{
    all_packable, all_plain, all_relative, any_oversized, any_refused, fits_zip, is_dir_name,
    is_plain_path, is_plain_segment, is_relative_path, leading, names_differ, names_fit, read_tar,
    read_zip, steps_up, tar_listing, tar_of, tar_path, tidied, write_tar, write_zip, zip_listing,
    zip_name, zip_of, ArchiveEntry, EntryView, SlotView, TarItem, TarItemView, TarKind, TarListing, TarView, ZipFault,
    ZipSlot,
};
use crate::error::{agrees, Error, ErrorView};
use crate::json::{
    can_be_printed, is_exact_document, is_in_read_form, json_of, may_hold_floats, print_json, printed,
    Json, JsonView,
};
use crate::metadata::{content_type, declared_type, read_documents_are_written_again};
use crate::path_laws::joining_undoes_splitting;
use crate::text::{
    begins, cat, cat3, contains, contains_in, ends_with, extend, find, find_is_first, find_last,
    find_last_in, find_last_is_last, finishes, from_chars, skip_chars, split, starts_with, str_eq,
    take_chars, to_chars, trim_end, trim_end_in, Class,
};

verus! {

/// The last segment of a path.
pub open spec fn file_name(path: Seq<char>) -> Seq<char> {
    path.skip(find_last(path, Class::Only('/')) + 1)
}

/// Whether a path names an AppleDouble sidecar (`._foo`), as archivers on macOS add them.
pub open spec fn is_sidecar(path: Seq<char>) -> bool {
    starts_with(file_name(path), seq!['.', '_'])
}

/// Whether a path names an AppleDouble sidecar. The device never makes such files; they must not
/// leak into a bundle.
pub fn is_appledouble(path: &[char]) -> (r: bool)
    ensures
        r == is_sidecar(path@),
{
    proof {
        find_last_is_last(path@, Class::Only('/'));
    }
    let mark: [char; 2] = ['.', '_'];
    assert(mark@ =~= seq!['.', '_']);
    match find_last_in(path, &Class::Only('/')) {
        Some(slash) => begins(skip_chars(path, slash + 1), &mark),
        None => {
            assert(path@.skip(0) =~= path@);
            begins(path, &mark)
        },
    }
}

/// `s` without leading `./`, however often it stands there.
pub open spec fn strip_dot_slash(s: Seq<char>) -> Seq<char>
    decreases s.len(),
{
    if s.len() >= 2 && s[0] == '.' && s[1] == '/' {
        strip_dot_slash(s.skip(2))
    } else {
        s
    }
}

fn strip_dot_slash_in(s: &[char]) -> (r: &[char])
    ensures
        r@ == strip_dot_slash(s@),
    decreases s.len(),
{
    if s.len() >= 2 && s[0] == '.' && s[1] == '/' {
        strip_dot_slash_in(skip_chars(s, 2))
    } else {
        s
    }
}

/// The path of a tar entry inside a bundle.
pub open spec fn bundle_path(path: Seq<char>) -> Seq<char> {
    trim_end(strip_dot_slash(path), Class::Only('/'))
}

/// The bundle entries of the first `n` tar entries: files and directories, without sidecars.
pub open spec fn carried(items: Seq<TarItemView>, n: nat) -> Seq<EntryView>
    decreases n,
{
    if n == 0 {
        Seq::empty()
    } else {
        let before = carried(items, (n - 1) as nat);
        let item = items[n - 1];
        let path = bundle_path(item.path);
        if path.len() == 0 || is_sidecar(path) {
            before
        } else {
            match item.kind {
                TarKind::Directory => before.push(EntryView { path, data: None, stored: false }),
                TarKind::Regular => before.push(
                    EntryView { path, data: Some(item.data), stored: false },
                ),
                TarKind::Special => before,
            }
        }
    }
}

/// The bundle entries of what was read of a tar archive.
pub open spec fn carried_of(listing: TarView) -> Seq<EntryView> {
    carried(listing.items, listing.items.len())
}

fn push_entry(entries: &mut Vec<ArchiveEntry>, entry: ArchiveEntry)
    ensures
        final(entries).deep_view() == old(entries).deep_view().push(entry.deep_view()),
{
    let ghost before = entries.deep_view();
    let ghost view = entry.deep_view();
    entries.push(entry);
    assert(entries.deep_view() =~= before.push(view));
}

fn copy_bytes(data: &Vec<u8>) -> (r: Vec<u8>)
    ensures
        r@ == data@,
{
    vstd::slice::slice_to_vec(data.as_slice())
}

fn carry(items: &Vec<TarItem>) -> (entries: Vec<ArchiveEntry>)
    ensures
        entries.deep_view() == carried(items.deep_view(), items.len() as nat),
{
    let ghost views = items.deep_view();
    let mut entries: Vec<ArchiveEntry> = Vec::new();
    let mut i: usize = 0;
    assert(entries.deep_view() =~= Seq::empty());
    while i < items.len()
        invariant
            i <= items.len(),
            views == items.deep_view(),
            entries.deep_view() == carried(views, i as nat),
        decreases items.len() - i,
    {
        let item = &items[i];
        assert(views[i as int] == item.deep_view());
        let chars = to_chars(item.path.as_str());
        let path = trim_end_in(strip_dot_slash_in(&chars), &Class::Only('/'));
        if path.len() > 0 && !is_appledouble(path) {
            match item.kind {
                TarKind::Directory => {
                    push_entry(
                        &mut entries,
                        ArchiveEntry { path: from_chars(path), data: None, stored: false },
                    );
                },
                TarKind::Regular => {
                    push_entry(
                        &mut entries,
                        ArchiveEntry {
                            path: from_chars(path),
                            data: Some(copy_bytes(&item.data)),
                            stored: false,
                        },
                    );
                },
                // Links and the like do not occur in the data directory.
                TarKind::Special => {},
            }
        }
        i += 1;
    }
    entries
}

/// Whether bytes are a bundle with the given entries.
pub open spec fn is_zip_of(bytes: Seq<u8>, entries: Seq<EntryView>) -> bool {
    zip_listing(bytes) == Ok::<Seq<SlotView>, Seq<char>>(zip_of(entries))
}

/// Whether the result of repacking what was read of a tar stream is right. There is no bundle
/// without the whole stream, with two entries of one name, or with a file that is too large. Where
/// all files can be packed, a second entry of a name is refused, and the stream's failure is
/// passed on; else there is a bundle.
pub open spec fn is_repacked(listing: TarView, r: Result<Seq<u8>, ErrorView>) -> bool {
    let entries = carried_of(listing);
    match r {
        Ok(bytes) => {
            &&& listing.failure is None
            &&& names_differ(entries)
            &&& !any_oversized(entries)
            &&& fits_zip(entries) ==> is_zip_of(bytes, entries)
        },
        Err(e) => {
            &&& e is Bundle || e is Io
            &&& all_packable(entries) && !names_differ(entries) ==> e is Bundle
            &&& all_packable(entries) && names_differ(entries) ==> (listing.failure matches Some(
                message,
            ) && e == ErrorView::Io(message))
        },
    }
}

/// What a result holds.
pub open spec fn outcome_of(r: Result<Vec<u8>, Error>) -> Result<Seq<u8>, ErrorView> {
    match r {
        Ok(bytes) => Ok(bytes@),
        Err(e) => Err(e.deep_view()),
    }
}

/// Repacks what was read of a tar stream into a bundle. Only regular files and directories are
/// carried over, in their order.
pub fn repack(listing: &TarListing) -> (r: Result<Vec<u8>, Error>)
    requires
        names_fit(carried_of(listing.deep_view())),
    ensures
        is_repacked(listing.deep_view(), outcome_of(r)),
{
    let entries = carry(&listing.items);
    match write_zip(&entries) {
        Err(ZipFault::Refused(message)) => Err(Error::Bundle(message)),
        Err(ZipFault::Unwritten(message)) => Err(Error::Io(message)),
        Ok(bytes) => match &listing.failure {
            Some(message) => Err(Error::Io(message.clone())),
            None => Ok(bytes),
        },
    }
}

/// Repacks a tar stream (as the device makes it) into a bundle.
pub fn tar_to_rmdoc(tar_bytes: &[u8]) -> (r: Result<Vec<u8>, Error>)
    requires
        names_fit(carried_of(tar_listing(tar_bytes@))),
    ensures
        is_repacked(tar_listing(tar_bytes@), outcome_of(r)),
{
    let listing = read_tar(tar_bytes);
    repack(&listing)
}

fn do_names_fit(entries: &Vec<ArchiveEntry>) -> (r: bool)
    ensures
        r == names_fit(entries.deep_view()),
{
    let ghost views = entries.deep_view();
    let mut i: usize = 0;
    while i < entries.len()
        invariant
            i <= entries.len(),
            views == entries.deep_view(),
            forall|k: int|
                0 <= k < i ==> encode_utf8(zip_name(#[trigger] views[k])).len() <= 0xffff,
        decreases entries.len() - i,
    {
        let entry = &entries[i];
        assert(views[i as int] == entry.deep_view());
        let chars = to_chars(entry.path.as_str());
        let is_dir = chars.len() > 0 && (chars[chars.len() - 1] == '/' || chars[chars.len() - 1]
            == '\\');
        let name = if entry.data.is_none() && !is_dir {
            let mut name = entry.path.clone();
            name.push('/');
            name
        } else {
            entry.path.clone()
        };
        assert(name@ == zip_name(views[i as int]));
        if name.as_str().as_bytes().len() > 0xffff {
            return false;
        }
        i += 1;
    }
    true
}

/// Repacks a tar stream into a bundle; `None` where a name is too long for the format.
pub fn try_tar_to_rmdoc(tar_bytes: &[u8]) -> (r: Option<Result<Vec<u8>, Error>>)
    ensures
        r is Some <==> names_fit(carried_of(tar_listing(tar_bytes@))),
        r matches Some(result) ==> is_repacked(tar_listing(tar_bytes@), outcome_of(result)),
{
    let listing = read_tar(tar_bytes);
    let entries = carry(&listing.items);
    if do_names_fit(&entries) {
        Some(tar_to_rmdoc(tar_bytes))
    } else {
        None
    }
}

/// One file of a bundle, verbatim; one without data is a directory.
#[derive(Debug)]
pub struct RmdocEntry {
    pub path: String,
    pub data: Option<Vec<u8>>,
}

/// What an [`RmdocEntry`] holds.
pub struct FileView {
    pub path: Seq<char>,
    pub data: Option<Seq<u8>>,
}

impl DeepView for RmdocEntry {
    type V = FileView;

    open spec fn deep_view(&self) -> FileView {
        FileView {
            path: self.path@,
            data: match self.data {
                Some(data) => Some(data@),
                None => None,
            },
        }
    }
}

/// A parsed `.rmdoc` bundle for one document.
#[derive(Debug)]
pub struct Rmdoc {
    /// The document UUID the bundle was exported under.
    pub uuid: String,
    /// Parsed metadata. Callers may change it before re-targeting with [`rmdoc_to_tar`]; unknown
    /// fields are preserved.
    pub metadata: Json,
    /// Parsed content, when present.
    pub content: Option<Json>,
    /// Every entry but the metadata, verbatim.
    pub files: Vec<RmdocEntry>,
}

/// What an [`Rmdoc`] holds.
pub struct RmdocView {
    pub uuid: Seq<char>,
    pub metadata: JsonView,
    pub content: Option<JsonView>,
    pub files: Seq<FileView>,
}

impl DeepView for Rmdoc {
    type V = RmdocView;

    open spec fn deep_view(&self) -> RmdocView {
        RmdocView {
            uuid: self.uuid@,
            metadata: self.metadata.deep_view(),
            content: self.content.deep_view(),
            files: self.files.deep_view(),
        }
    }
}

impl Rmdoc {
    /// Every file belongs to the document, and the metadata is in order.
    pub open spec fn wf(&self) -> bool {
        self.metadata.wf() && all_belong(self.files.deep_view(), self.uuid@)
    }

    /// Visible name recorded in the bundle's metadata.
    pub fn visible_name(&self) -> (r: Option<&str>)
        ensures
            r.deep_view() == self.deep_view().metadata.text("visibleName"@),
    {
        self.metadata.text("visibleName")
    }

    /// Document type, with the same normalization as live listings: content without a file type
    /// means a native notebook.
    pub fn file_type(&self) -> (r: Option<&str>)
        ensures
            r.deep_view() == content_type(self.deep_view().content),
    {
        match &self.content {
            Some(content) => {
                let some: Option<&Json> = Some(content);
                assert(some.deep_view() == self.deep_view().content);
                declared_type(some)
            },
            None => {
                let none: Option<&Json> = None;
                assert(none.deep_view() == self.deep_view().content);
                declared_type(none)
            },
        }
    }
}

/// Whether a path belongs to a document: it is the UUID itself or goes on with `.` or `/`.
pub open spec fn belongs(path: Seq<char>, uuid: Seq<char>) -> bool {
    starts_with(path, uuid) && (path.len() == uuid.len() || path[uuid.len() as int] == '.'
        || path[uuid.len() as int] == '/')
}

/// Whether all files belong to a document.
pub open spec fn all_belong(files: Seq<FileView>, uuid: Seq<char>) -> bool {
    forall|i: int| 0 <= i < files.len() ==> belongs((#[trigger] files[i]).path, uuid)
}

/// Whether a path belongs to a document. Siblings that share a prefix do not.
pub fn belongs_to(path: &[char], uuid: &[char]) -> (r: bool)
    ensures
        r == belongs(path@, uuid@),
{
    begins(path, uuid) && (path.len() == uuid.len() || path[uuid.len()] == '.'
        || path[uuid.len()] == '/')
}

/// The name of an entry, if it could be opened.
pub open spec fn slot_name(slot: SlotView) -> Seq<char> {
    match slot {
        SlotView::File { name, .. } => name,
        SlotView::Broken { name, .. } => name,
        SlotView::Closed { .. } => Seq::empty(),
    }
}

/// The UUID whose metadata an entry is: a top-level `<uuid>.metadata` that is no sidecar.
pub open spec fn metadata_uuid(name: Seq<char>) -> Option<Seq<char>> {
    if !contains(name, Class::Only('/')) && !is_sidecar(name) && ends_with(name, ".metadata"@) {
        Some(name.take(name.len() - ".metadata"@.len()))
    } else {
        None
    }
}

/// The document that the first `n` entries are about.
pub open spec fn document_uuid(slots: Seq<SlotView>, n: nat) -> Result<Option<Seq<char>>, ErrorView>
    decreases n,
{
    if n == 0 {
        Ok(None)
    } else {
        match document_uuid(slots, (n - 1) as nat) {
            Err(e) => Err(e),
            Ok(found) => match slots[n - 1] {
                SlotView::Closed { message } => Err(ErrorView::Bundle(message)),
                _ => match (found, metadata_uuid(slot_name(slots[n - 1]))) {
                    (Some(_), Some(_)) => Err(
                        ErrorView::Bundle(
                            "multiple .metadata entries; expected exactly one document"@,
                        ),
                    ),
                    (None, stem) => Ok(stem),
                    (found, None) => Ok(found),
                },
            },
        }
    }
}

/// What was gathered of a bundle.
pub struct GatheredView {
    pub metadata: Option<JsonView>,
    pub content: Option<JsonView>,
    pub files: Seq<FileView>,
}

/// The document that the data of a file holds.
pub open spec fn parsed(path: Seq<char>, data: Seq<u8>) -> Result<JsonView, ErrorView> {
    match json_of(data) {
        Ok(json) => Ok(json),
        Err(message) => Err(ErrorView::Json { path, message }),
    }
}

/// What is gathered with one more entry.
pub open spec fn with_slot(g: GatheredView, slot: SlotView, uuid: Seq<char>) -> Result<
    GatheredView,
    ErrorView,
> {
    let name = slot_name(slot);
    let path = trim_end(name, Class::Only('/'));
    if slot is Closed {
        Err(ErrorView::Bundle(slot->Closed_message))
    } else if path.len() == 0 || is_sidecar(path) {
        Ok(g)
    } else if !belongs(path, uuid) {
        Err(ErrorView::Bundle("entry '"@ + path + "' does not belong to document "@ + uuid))
    } else if is_dir_name(name) {
        Ok(GatheredView { files: g.files.push(FileView { path, data: None }), ..g })
    } else {
        match slot {
            SlotView::Broken { message, .. } => Err(ErrorView::Io(message)),
            SlotView::Closed { message } => Err(ErrorView::Bundle(message)),
            SlotView::File { data, .. } => {
                let files = g.files.push(FileView { path, data: Some(data) });
                if path == uuid + ".metadata"@ {
                    match parsed(path, data) {
                        Ok(json) => Ok(GatheredView { metadata: Some(json), ..g }),
                        Err(e) => Err(e),
                    }
                } else if path == uuid + ".content"@ {
                    match parsed(path, data) {
                        Ok(json) => Ok(GatheredView { content: Some(json), files, ..g }),
                        Err(e) => Err(e),
                    }
                } else {
                    Ok(GatheredView { files, ..g })
                }
            },
        }
    }
}

/// What the first `n` entries give.
pub open spec fn gathered(slots: Seq<SlotView>, n: nat, uuid: Seq<char>) -> Result<
    GatheredView,
    ErrorView,
>
    decreases n,
{
    if n == 0 {
        Ok(GatheredView { metadata: None, content: None, files: Seq::empty() })
    } else {
        match gathered(slots, (n - 1) as nat, uuid) {
            Err(e) => Err(e),
            Ok(g) => with_slot(g, slots[n - 1], uuid),
        }
    }
}

/// The bundle that the entries of a zip archive make up.
pub open spec fn bundle_of(slots: Seq<SlotView>) -> Result<RmdocView, ErrorView> {
    match document_uuid(slots, slots.len()) {
        Err(e) => Err(e),
        Ok(None) => Err(ErrorView::Bundle("no .metadata entry found"@)),
        Ok(Some(uuid)) => match gathered(slots, slots.len(), uuid) {
            Err(e) => Err(e),
            Ok(g) => Ok(
                RmdocView {
                    uuid,
                    metadata: g.metadata->Some_0,
                    content: g.content,
                    files: g.files,
                },
            ),
        },
    }
}

/// The bundle that bytes hold.
pub open spec fn rmdoc_of(bytes: Seq<u8>) -> Result<RmdocView, ErrorView> {
    match zip_listing(bytes) {
        Err(message) => Err(ErrorView::Bundle(message)),
        Ok(slots) => bundle_of(slots),
    }
}

pub(crate) proof fn uuid_search_stops(slots: Seq<SlotView>, n: nat, m: nat)
    requires
        n <= m,
        document_uuid(slots, n) is Err,
    ensures
        document_uuid(slots, m) == document_uuid(slots, n),
    decreases m,
{
    if n < m {
        uuid_search_stops(slots, n, (m - 1) as nat);
    }
}

pub(crate) proof fn gathering_stops(slots: Seq<SlotView>, n: nat, m: nat, uuid: Seq<char>)
    requires
        n <= m,
        gathered(slots, n, uuid) is Err,
    ensures
        gathered(slots, m, uuid) == gathered(slots, n, uuid),
    decreases m,
{
    if n < m {
        gathering_stops(slots, n, (m - 1) as nat, uuid);
    }
}

/// The UUID found is that of an entry.
pub(crate) proof fn found_uuid_has_an_entry(slots: Seq<SlotView>, n: nat) -> (k: int)
    requires
        document_uuid(slots, n) matches Ok(Some(_)),
    ensures
        0 <= k < n,
        !(slots[k] is Closed),
        metadata_uuid(slot_name(slots[k])) == document_uuid(slots, n)->Ok_0,
    decreases n,
{
    if document_uuid(slots, (n - 1) as nat) matches Ok(Some(_)) {
        found_uuid_has_an_entry(slots, (n - 1) as nat)
    } else {
        n - 1
    }
}

proof fn trim_end_without(s: Seq<char>, k: Class)
    requires
        !contains(s, k),
    ensures
        trim_end(s, k) == s,
{
    if s.len() > 0 {
        assert(!k.holds(s[s.len() - 1]));
    }
}

/// Once the metadata was among the entries, it was gathered.
proof fn metadata_is_gathered(slots: Seq<SlotView>, n: nat, uuid: Seq<char>, k: int)
    requires
        0 <= k < n,
        metadata_uuid(slot_name(slots[k])) == Some(uuid),
        gathered(slots, n, uuid) is Ok,
    ensures
        gathered(slots, n, uuid)->Ok_0.metadata is Some,
    decreases n,
{
    let g = gathered(slots, (n - 1) as nat, uuid);
    if k < n - 1 {
        metadata_is_gathered(slots, (n - 1) as nat, uuid, k);
    } else {
        let name = slot_name(slots[k]);
        trim_end_without(name, Class::Only('/'));
        reveal_strlit(".metadata");
        assert(name =~= uuid + ".metadata"@) by {
            assert(name.skip(name.len() - 9) == ".metadata"@);
            assert(uuid == name.take(name.len() - 9));
        }
        assert(name.last() == 'a');
        assert(starts_with(name, uuid)) by {
            assert(name.take(uuid.len() as int) =~= uuid);
        }
        assert(name[uuid.len() as int] == ".metadata"@[0]);
    }
}

proof fn gathered_files_belong(slots: Seq<SlotView>, n: nat, uuid: Seq<char>)
    ensures
        gathered(slots, n, uuid) matches Ok(g) ==> all_belong(g.files, uuid),
    decreases n,
{
    if n > 0 {
        gathered_files_belong(slots, (n - 1) as nat, uuid);
        if gathered(slots, n, uuid) is Ok {
            let g = gathered(slots, (n - 1) as nat, uuid)->Ok_0;
            let now = gathered(slots, n, uuid)->Ok_0;
            assert forall|i: int| 0 <= i < now.files.len() implies belongs(
                (#[trigger] now.files[i]).path,
                uuid,
            ) by {
                if i < g.files.len() {
                    assert(now.files[i] == g.files[i]);
                }
            }
        }
    }
}

fn find_document(slots: &Vec<ZipSlot>) -> (r: Result<Option<String>, Error>)
    ensures
        agrees(r, document_uuid(slots.deep_view(), slots.len() as nat)),
{
    let ghost views = slots.deep_view();
    let suffix = to_chars(".metadata");
    let mut found: Option<String> = None;
    let mut i: usize = 0;
    while i < slots.len()
        invariant
            i <= slots.len(),
            views == slots.deep_view(),
            suffix@ == ".metadata"@,
            document_uuid(views, i as nat) == Ok::<Option<Seq<char>>, ErrorView>(found.deep_view()),
        decreases slots.len() - i,
    {
        proof {
            assert(views[i as int] == slots[i as int].deep_view());
            if document_uuid(views, (i + 1) as nat) is Err {
                uuid_search_stops(views, (i + 1) as nat, slots.len() as nat);
            }
        }
        let name = match &slots[i] {
            ZipSlot::Closed { message } => {
                return Err(Error::Bundle(message.clone()));
            },
            ZipSlot::File { name, .. } => name.as_str(),
            ZipSlot::Broken { name, .. } => name.as_str(),
        };
        let chars = to_chars(name);
        if !contains_in(&chars, &Class::Only('/')) && !is_appledouble(&chars) && finishes(
            &chars,
            &suffix,
        ) {
            if found.is_some() {
                return Err(
                    Error::Bundle(
                        "multiple .metadata entries; expected exactly one document".to_owned(),
                    ),
                );
            }
            found = Some(from_chars(take_chars(&chars, chars.len() - suffix.len())));
        }
        i += 1;
    }
    Ok(found)
}

fn parse_file(path: &str, data: &Vec<u8>) -> (r: Result<Json, Error>)
    ensures
        agrees(r, parsed(path@, data@)),
        r matches Ok(json) ==> json.wf() && is_in_read_form(json.deep_view()),
{
    match Json::parse(data.as_slice()) {
        Ok(json) => Ok(json),
        Err(message) => Err(Error::Json { path: path.to_owned(), message }),
    }
}

struct Gathered {
    metadata: Option<Json>,
    content: Option<Json>,
    files: Vec<RmdocEntry>,
}

impl DeepView for Gathered {
    type V = GatheredView;

    closed spec fn deep_view(&self) -> GatheredView {
        GatheredView {
            metadata: self.metadata.deep_view(),
            content: self.content.deep_view(),
            files: self.files.deep_view(),
        }
    }
}

impl Gathered {
    spec fn wf(&self) -> bool {
        self.metadata matches Some(json) ==> json.wf() && is_in_read_form(json.deep_view())
    }

    fn push(&mut self, path: String, data: Option<Vec<u8>>)
        requires
            old(self).wf(),
        ensures
            final(self).wf(),
            final(self).metadata == old(self).metadata,
            final(self).content == old(self).content,
            final(self).files.deep_view() == old(self).files.deep_view().push(
                (FileView {
                    path: path@,
                    data: match data {
                        Some(data) => Some(data@),
                        None => None,
                    },
                }),
            ),
    {
        let ghost before = self.files.deep_view();
        let entry = RmdocEntry { path, data };
        let ghost view = entry.deep_view();
        self.files.push(entry);
        assert(self.files.deep_view() =~= before.push(view));
    }
}

fn gather_slot(g: &mut Gathered, slot: &ZipSlot, uuid: &str) -> (r: Result<(), Error>)
    requires
        old(g).wf(),
    ensures
        match r {
            Ok(_) => final(g).wf() && with_slot(old(g).deep_view(), slot.deep_view(), uuid@) == Ok::<
                GatheredView,
                ErrorView,
            >(final(g).deep_view()),
            Err(e) => with_slot(old(g).deep_view(), slot.deep_view(), uuid@) == Err::<
                GatheredView,
                ErrorView,
            >(e.deep_view()),
        },
{
    let name = match slot {
        ZipSlot::Closed { message } => {
            return Err(Error::Bundle(message.clone()));
        },
        ZipSlot::File { name, .. } => name.as_str(),
        ZipSlot::Broken { name, .. } => name.as_str(),
    };
    let chars = to_chars(name);
    let is_dir = chars.len() > 0 && (chars[chars.len() - 1] == '/' || chars[chars.len() - 1]
        == '\\');
    let trimmed = trim_end_in(&chars, &Class::Only('/'));
    if trimmed.len() == 0 || is_appledouble(trimmed) {
        return Ok(());
    }
    let path = from_chars(trimmed);
    if !belongs_to(trimmed, &to_chars(uuid)) {
        let entry = cat3("entry '", path.as_str(), "' does not belong to document ");
        return Err(Error::Bundle(cat(entry.as_str(), uuid)));
    }
    if is_dir {
        g.push(path, None);
        return Ok(());
    }
    let data = match slot {
        ZipSlot::Broken { message, .. } => {
            return Err(Error::Io(message.clone()));
        },
        ZipSlot::Closed { message } => {
            return Err(Error::Bundle(message.clone()));
        },
        ZipSlot::File { data, .. } => data,
    };
    let metadata_path = cat(uuid, ".metadata");
    let content_path = cat(uuid, ".content");
    if str_eq(path.as_str(), metadata_path.as_str()) {
        // Made anew from the parsed value when re-targeting; not carried as a verbatim file.
        match parse_file(path.as_str(), data) {
            Ok(json) => {
                g.metadata = Some(json);
            },
            Err(e) => {
                return Err(e);
            },
        }
        return Ok(());
    }
    if str_eq(path.as_str(), content_path.as_str()) {
        match parse_file(path.as_str(), data) {
            Ok(json) => {
                g.content = Some(json);
            },
            Err(e) => {
                return Err(e);
            },
        }
    }
    g.push(path, Some(copy_bytes(data)));
    Ok(())
}

/// The bundle that the entries of a zip archive make up.
pub fn assemble(slots: &Vec<ZipSlot>) -> (r: Result<Rmdoc, Error>)
    ensures
        agrees(r, bundle_of(slots.deep_view())),
        r matches Ok(rmdoc) ==> rmdoc.wf() && is_in_read_form(rmdoc.metadata.deep_view()),
{
    let ghost views = slots.deep_view();
    assert(views.len() == slots.len());
    let uuid = match find_document(slots) {
        Err(e) => {
            return Err(e);
        },
        Ok(None) => {
            return Err(Error::Bundle("no .metadata entry found".to_owned()));
        },
        Ok(Some(uuid)) => uuid,
    };
    let mut g = Gathered { metadata: None, content: None, files: Vec::new() };
    let mut i: usize = 0;
    assert(g.files.deep_view() =~= Seq::empty());
    while i < slots.len()
        invariant
            i <= slots.len(),
            views == slots.deep_view(),
            g.wf(),
            document_uuid(views, views.len()) == Ok::<Option<Seq<char>>, ErrorView>(Some(uuid@)),
            gathered(views, i as nat, uuid@) == Ok::<GatheredView, ErrorView>(g.deep_view()),
        decreases slots.len() - i,
    {
        proof {
            assert(views[i as int] == slots[i as int].deep_view());
            if gathered(views, (i + 1) as nat, uuid@) is Err {
                gathering_stops(views, (i + 1) as nat, slots.len() as nat, uuid@);
            }
        }
        match gather_slot(&mut g, &slots[i], uuid.as_str()) {
            Err(e) => {
                return Err(e);
            },
            Ok(_) => {},
        }
        i += 1;
    }
    proof {
        let k = found_uuid_has_an_entry(views, views.len());
        metadata_is_gathered(views, views.len(), uuid@, k);
        gathered_files_belong(views, views.len(), uuid@);
    }
    match g.metadata {
        Some(metadata) => Ok(Rmdoc { uuid, metadata, content: g.content, files: g.files }),
        None => vstd::pervasive::unreached(),
    }
}

/// Parses `.rmdoc` bytes. Expects exactly one document (one top-level `.metadata` entry); every
/// entry must belong to that document's UUID.
pub fn parse_rmdoc(bytes: &[u8]) -> (r: Result<Rmdoc, Error>)
    ensures
        agrees(r, rmdoc_of(bytes@)),
        r matches Ok(rmdoc) ==> rmdoc.wf() && is_in_read_form(rmdoc.metadata.deep_view()),
{
    match read_zip(bytes) {
        Err(message) => Err(Error::Bundle(message)),
        Ok(slots) => assemble(&slots),
    }
}

/// The file entries of a bundle under a new UUID.
pub open spec fn renamed(files: Seq<FileView>, uuid: Seq<char>, new_uuid: Seq<char>) -> Seq<
    EntryView,
> {
    Seq::new(
        files.len(),
        |i: int|
            EntryView {
                path: new_uuid + files[i].path.skip(uuid.len() as int),
                data: files[i].data,
                stored: false,
            },
    )
}

/// The metadata entry of a document.
pub open spec fn metadata_entry(new_uuid: Seq<char>, text: Seq<char>) -> EntryView {
    EntryView { path: new_uuid + ".metadata"@, data: Some(encode_utf8(text)), stored: false }
}

/// The entries of a bundle under a new UUID, the metadata with the given text last.
pub open spec fn retargeted(rmdoc: RmdocView, new_uuid: Seq<char>, text: Seq<char>) -> Seq<
    EntryView,
> {
    renamed(rmdoc.files, rmdoc.uuid, new_uuid).push(metadata_entry(new_uuid, text))
}

/// Serializes a bundle as a tar stream targeting `new_uuid`. All entry paths are renamed from the
/// bundle's UUID; the metadata is made anew from [`Rmdoc::metadata`]. It goes last: tar extracts in
/// order, and a document only becomes visible once its metadata exists, so that an interrupted
/// extraction leaves invisible files instead of a half-restored document.
pub fn rmdoc_to_tar(rmdoc: &Rmdoc, new_uuid: &str) -> (r: Result<Vec<u8>, Error>)
    requires
        rmdoc.wf(),
    ensures
        match printed(rmdoc.deep_view().metadata) {
            Ok(text) => (r matches Err(e) ==> e is Io) && (any_refused(
                retargeted(rmdoc.deep_view(), new_uuid@, text),
            ) ==> r is Err) && (all_relative(retargeted(rmdoc.deep_view(), new_uuid@, text)) ==> (
            r matches Ok(bytes) && tar_listing(bytes@) == tar_of(
                retargeted(rmdoc.deep_view(), new_uuid@, text),
            ))),
            Err(message) => r matches Err(e) && (any_refused(
                renamed(rmdoc.deep_view().files, rmdoc.uuid@, new_uuid@),
            ) ==> e is Io) && (all_relative(
                renamed(rmdoc.deep_view().files, rmdoc.uuid@, new_uuid@),
            ) ==> e.deep_view() == (ErrorView::Json { path: new_uuid@ + ".metadata"@, message })),
        },
        can_be_printed(rmdoc.deep_view().metadata) ==> printed(rmdoc.deep_view().metadata) is Ok,
        is_exact_document(rmdoc.deep_view().metadata) ==> (printed(rmdoc.deep_view().metadata)
            matches Ok(text) && json_of(encode_utf8(text)) == Ok::<JsonView, Seq<char>>(
            rmdoc.deep_view().metadata,
        )),
{
    let ghost files = rmdoc.files.deep_view();
    let target = to_chars(new_uuid);
    let old_len = to_chars(rmdoc.uuid.as_str()).len();
    let mut entries: Vec<ArchiveEntry> = Vec::new();
    let mut i: usize = 0;
    assert(renamed(files, rmdoc.uuid@, new_uuid@).take(0) =~= Seq::empty());
    assert(entries.deep_view() =~= Seq::empty());
    while i < rmdoc.files.len()
        invariant
            i <= rmdoc.files.len(),
            files == rmdoc.files.deep_view(),
            all_belong(files, rmdoc.uuid@),
            target@ == new_uuid@,
            old_len == rmdoc.uuid@.len(),
            entries.deep_view() == renamed(files, rmdoc.uuid@, new_uuid@).take(i as int),
        decreases rmdoc.files.len() - i,
    {
        let file = &rmdoc.files[i];
        let ghost all = renamed(files, rmdoc.uuid@, new_uuid@);
        assert(files[i as int] == file.deep_view());
        let chars = to_chars(file.path.as_str());
        let mut path: Vec<char> = Vec::new();
        extend(&mut path, &target);
        extend(&mut path, skip_chars(&chars, old_len));
        assert(path@ =~= new_uuid@ + file.path@.skip(old_len as int));
        let data = match &file.data {
            Some(data) => Some(copy_bytes(data)),
            None => None,
        };
        push_entry(&mut entries, ArchiveEntry { path: from_chars(&path), data, stored: false });
        assert(entries.deep_view() =~= all.take(i + 1));
        i += 1;
    }
    assert(renamed(files, rmdoc.uuid@, new_uuid@).take(i as int) =~= renamed(
        files,
        rmdoc.uuid@,
        new_uuid@,
    ));
    match print_json(&rmdoc.metadata) {
        Ok(text) => {
            let data = vstd::slice::slice_to_vec(text.as_str().as_bytes());
            push_entry(
                &mut entries,
                ArchiveEntry { path: cat(new_uuid, ".metadata"), data: Some(data), stored: false },
            );
            assert(entries.deep_view() =~= retargeted(rmdoc.deep_view(), new_uuid@, text@));
            match write_tar(&entries) {
                Ok(bytes) => Ok(bytes),
                Err(message) => Err(Error::Io(message)),
            }
        },
        Err(message) => match write_tar(&entries) {
            Ok(_) => Err(Error::Json { path: cat(new_uuid, ".metadata"), message }),
            Err(failure) => Err(Error::Io(failure)),
        },
    }
}

/// A re-targeted bundle is all about the new document, and its last entry is the metadata.
pub proof fn retargeted_bundle_is_one_document(
    rmdoc: RmdocView,
    new_uuid: Seq<char>,
    text: Seq<char>,
)
    requires
        all_belong(rmdoc.files, rmdoc.uuid),
    ensures
        retargeted(rmdoc, new_uuid, text).last() == metadata_entry(new_uuid, text),
        retargeted(rmdoc, new_uuid, text).len() == rmdoc.files.len() + 1,
        forall|i: int|
            0 <= i < retargeted(rmdoc, new_uuid, text).len() ==> belongs(
                (#[trigger] retargeted(rmdoc, new_uuid, text)[i]).path,
                new_uuid,
            ),
{
    let entries = retargeted(rmdoc, new_uuid, text);
    reveal_strlit(".metadata");
    assert forall|i: int| 0 <= i < entries.len() implies belongs(
        (#[trigger] entries[i]).path,
        new_uuid,
    ) by {
        let path = entries[i].path;
        assert(path.take(new_uuid.len() as int) =~= new_uuid);
        if i < rmdoc.files.len() {
            assert(belongs(rmdoc.files[i].path, rmdoc.uuid));
        }
    }
}

/// What the first `n` entries of a bundle are under a new UUID. Sidecars and the metadata stay
/// behind; of every other entry the leading UUID is replaced, and its data stay the same.
pub open spec fn moved(slots: Seq<SlotView>, n: nat, uuid: Seq<char>, new_uuid: Seq<char>) -> Seq<
    EntryView,
>
    decreases n,
{
    if n == 0 {
        Seq::empty()
    } else {
        let before = moved(slots, (n - 1) as nat, uuid, new_uuid);
        let name = slot_name(slots[n - 1]);
        let path = trim_end(name, Class::Only('/'));
        let new_path = new_uuid + path.skip(uuid.len() as int);
        if path.len() == 0 || is_sidecar(path) {
            before
        } else if is_dir_name(name) {
            before.push(EntryView { path: new_path, data: None, stored: false })
        } else if path == uuid + ".metadata"@ {
            before
        } else {
            before.push(
                EntryView { path: new_path, data: Some(slots[n - 1]->File_data), stored: false },
            )
        }
    }
}

proof fn gathered_files_move(slots: Seq<SlotView>, n: nat, uuid: Seq<char>, new_uuid: Seq<char>)
    ensures
        gathered(slots, n, uuid) matches Ok(g) ==> {
            &&& renamed(g.files, uuid, new_uuid) == moved(slots, n, uuid, new_uuid)
            &&& g.metadata matches Some(json) ==> exists|bytes: Seq<u8>| #[trigger]
                json_of(bytes) == Ok::<JsonView, Seq<char>>(json)
        },
    decreases n,
{
    if n > 0 {
        gathered_files_move(slots, (n - 1) as nat, uuid, new_uuid);
        if gathered(slots, n, uuid) is Ok {
            let before = gathered(slots, (n - 1) as nat, uuid)->Ok_0;
            let now = gathered(slots, n, uuid)->Ok_0;
            if now.files.len() > before.files.len() {
                assert(now.files.drop_last() =~= before.files);
                assert(renamed(now.files, uuid, new_uuid) =~= renamed(
                    before.files,
                    uuid,
                    new_uuid,
                ).push(renamed(now.files, uuid, new_uuid).last()));
            }
            if now.metadata != before.metadata {
                assert(json_of(slots[n - 1]->File_data) == Ok::<JsonView, Seq<char>>(
                    now.metadata->Some_0,
                ));
            }
        }
    } else {
        assert(renamed(Seq::empty(), uuid, new_uuid) =~= moved(slots, 0, uuid, new_uuid));
    }
}

/// A parsed bundle moves to its new UUID whole: what the tar stream holds is the entries of the zip
/// archive in their order, without sidecars, each with the leading UUID replaced and the same data,
/// and the metadata last. The metadata can always be printed, and is read back as it was if it holds
/// no floating-point numbers.
pub proof fn parsed_bundles_move_whole(slots: Seq<SlotView>, new_uuid: Seq<char>, text: Seq<char>)
    requires
        bundle_of(slots) is Ok,
        is_in_read_form(bundle_of(slots)->Ok_0.metadata),
    ensures
        retargeted(bundle_of(slots)->Ok_0, new_uuid, text) == moved(
            slots,
            slots.len(),
            bundle_of(slots)->Ok_0.uuid,
            new_uuid,
        ).push(metadata_entry(new_uuid, text)),
        can_be_printed(bundle_of(slots)->Ok_0.metadata),
        !may_hold_floats(bundle_of(slots)->Ok_0.metadata) ==> is_exact_document(
            bundle_of(slots)->Ok_0.metadata,
        ),
{
    let rmdoc = bundle_of(slots)->Ok_0;
    let k = found_uuid_has_an_entry(slots, slots.len());
    metadata_is_gathered(slots, slots.len(), rmdoc.uuid, k);
    gathered_files_move(slots, slots.len(), rmdoc.uuid, new_uuid);
    let bytes = choose|bytes: Seq<u8>| #[trigger]
        json_of(bytes) == Ok::<JsonView, Seq<char>>(rmdoc.metadata);
    read_documents_are_written_again(bytes, rmdoc.metadata);
}

/// The files among the first `n` entries of a document, that is all but its metadata.
pub open spec fn files_of(entries: Seq<EntryView>, n: nat, uuid: Seq<char>) -> Seq<FileView>
    decreases n,
{
    if n == 0 {
        Seq::empty()
    } else {
        let before = files_of(entries, (n - 1) as nat, uuid);
        let entry = entries[n - 1];
        if entry.path == uuid + ".metadata"@ {
            before
        } else {
            before.push(FileView { path: entry.path, data: entry.data })
        }
    }
}

/// Whether the entries are the files of one document: every path belongs to it and can stand in a
/// bundle, and the entry at position `m`, and no other, is its metadata.
pub open spec fn is_document(entries: Seq<EntryView>, uuid: Seq<char>, m: int) -> bool {
    &&& !contains(uuid, Class::Only('/'))
    &&& !is_sidecar(uuid + ".metadata"@)
    &&& 0 <= m < entries.len()
    &&& entries[m].path == uuid + ".metadata"@
    &&& entries[m].data is Some
    &&& forall|i: int|
        0 <= i < entries.len() ==> belongs((#[trigger] entries[i]).path, uuid) && !is_sidecar(
            entries[i].path,
        ) && entries[i].path.len() > 0 && !is_dir_name(entries[i].path)
    &&& forall|i: int|
        0 <= i < entries.len() && i != m ==> (#[trigger] entries[i]).path != uuid + ".metadata"@
            && metadata_uuid(zip_name(entries[i])) is None
}

/// The content of a document as its file tells it.
pub open spec fn content_of(entries: Seq<EntryView>, n: nat, uuid: Seq<char>) -> Option<JsonView>
    decreases n,
{
    if n == 0 {
        None
    } else {
        let entry = entries[n - 1];
        if entry.path == uuid + ".content"@ && entry.data is Some {
            Some(json_of(entry.data->Some_0)->Ok_0)
        } else {
            content_of(entries, (n - 1) as nat, uuid)
        }
    }
}

proof fn trim_end_slash_of_name(path: Seq<char>)
    requires
        path.len() > 0,
        !is_dir_name(path),
    ensures
        trim_end(path, Class::Only('/')) == path,
        trim_end(path.push('/'), Class::Only('/')) == path,
{
    assert(path.push('/').drop_last() =~= path);
    assert(path.push('/').last() == '/');
}

proof fn documents_are_found(entries: Seq<EntryView>, n: nat, uuid: Seq<char>, m: int)
    requires
        is_document(entries, uuid, m),
        n <= entries.len(),
    ensures
        document_uuid(zip_of(entries), n) == Ok::<Option<Seq<char>>, ErrorView>(
            if m < n {
                Some(uuid)
            } else {
                None
            },
        ),
    decreases n,
{
    if n > 0 {
        documents_are_found(entries, (n - 1) as nat, uuid, m);
        let slots = zip_of(entries);
        assert(slot_name(slots[n - 1]) == zip_name(entries[n - 1]));
        if n - 1 == m {
            let name = entries[m].path;
            reveal_strlit(".metadata");
            assert(zip_name(entries[m]) == name);
            assert(!contains(name, Class::Only('/'))) by {
                assert forall|i: int| 0 <= i < name.len() implies !Class::Only('/').holds(
                    #[trigger] name[i],
                ) by {
                    if i < uuid.len() {
                        assert(name[i] == uuid[i]);
                        assert(!Class::Only('/').holds(uuid[i]));
                    } else {
                        assert(name[i] == ".metadata"@[i - uuid.len()]);
                    }
                }
            }
            assert(name.skip(name.len() - 9) =~= ".metadata"@);
            assert(name.take(name.len() - 9) =~= uuid);
        } else {
            assert(metadata_uuid(zip_name(entries[n - 1])) is None);
        }
    }
}

proof fn documents_are_gathered(entries: Seq<EntryView>, n: nat, uuid: Seq<char>, m: int)
    requires
        is_document(entries, uuid, m),
        n <= entries.len(),
        json_of(entries[m].data->Some_0) is Ok,
        forall|i: int|
            0 <= i < entries.len() && (#[trigger] entries[i]).path == uuid + ".content"@
                && entries[i].data is Some ==> json_of(entries[i].data->Some_0) is Ok,
    ensures
        gathered(zip_of(entries), n, uuid) == Ok::<GatheredView, ErrorView>(
            (GatheredView {
                metadata: if m < n {
                    Some(json_of(entries[m].data->Some_0)->Ok_0)
                } else {
                    None
                },
                content: content_of(entries, n, uuid),
                files: files_of(entries, n, uuid),
            }),
        ),
    decreases n,
{
    if n > 0 {
        documents_are_gathered(entries, (n - 1) as nat, uuid, m);
        let slots = zip_of(entries);
        let entry = entries[n - 1];
        assert(belongs(entry.path, uuid));
        assert(slot_name(slots[n - 1]) == zip_name(entry));
        trim_end_slash_of_name(entry.path);
        reveal_strlit(".metadata");
        reveal_strlit(".content");
        assert((uuid + ".metadata"@).len() != (uuid + ".content"@).len());
        if entry.data is None {
            assert(zip_name(entry).last() == '/');
            assert(is_dir_name(zip_name(entry)));
        }
    }
}

/// A bundle made of the files of a document is parsed back to that document: its UUID, its
/// metadata and content, and all its other files with their data.
pub proof fn bundles_hold_their_document(entries: Seq<EntryView>, uuid: Seq<char>, m: int)
    requires
        is_document(entries, uuid, m),
        json_of(entries[m].data->Some_0) is Ok,
        forall|i: int|
            0 <= i < entries.len() && (#[trigger] entries[i]).path == uuid + ".content"@
                && entries[i].data is Some ==> json_of(entries[i].data->Some_0) is Ok,
    ensures
        bundle_of(zip_of(entries)) == Ok::<RmdocView, ErrorView>(
            (RmdocView {
                uuid,
                metadata: json_of(entries[m].data->Some_0)->Ok_0,
                content: content_of(entries, entries.len(), uuid),
                files: files_of(entries, entries.len(), uuid),
            }),
        ),
{
    documents_are_found(entries, entries.len(), uuid, m);
    documents_are_gathered(entries, entries.len(), uuid, m);
}

proof fn split_ends_empty(s: Seq<char>)
    requires
        s.len() > 0,
        s.last() == '/',
    ensures
        split(s, Class::Only('/')).len() > 0,
        split(s, Class::Only('/')).last().len() == 0,
    decreases s.len(),
{
    let k = Class::Only('/');
    find_is_first(s, k);
    let i = find(s, k);
    assert(k.holds(s[s.len() - 1]));
    assert(i < s.len());
    let rest = s.skip(i + 1);
    if rest.len() > 0 {
        assert(rest.last() == s.last());
        split_ends_empty(rest);
        assert(split(s, k).last() == split(rest, k).last());
    } else {
        find_is_first(rest, k);
        assert(split(rest, k) == seq![rest]);
        assert(split(s, k).last() == rest);
    }
}

proof fn plain_paths_stay(path: Seq<char>)
    requires
        is_plain_path(path),
    ensures
        path.len() > 0,
        bundle_path(path) == path,
{
    let k = Class::Only('/');
    let parts = split(path, k);
    find_is_first(path, k);
    let i = find(path, k);
    assert(parts[0] == if i < path.len() {
        path.take(i)
    } else {
        path
    });
    assert(is_plain_segment(parts[0]));
    if path.len() >= 2 && path[0] == '.' && path[1] == '/' {
        assert(k.holds(path[1]));
        assert(!k.holds(path[0]));
        assert(i == 1) by {
            if i > 1 {
                assert(!k.holds(path[1]));
            }
            if i == 0 {
                assert(k.holds(path[0]));
            }
        }
        assert(path.take(1) =~= seq!['.']);
    }
    if path.last() == '/' {
        split_ends_empty(path);
        assert(is_plain_segment(parts[parts.len() - 1]));
    }
}

proof fn plain_segments_all_lead(segments: Seq<Seq<char>>, n: nat)
    requires
        n <= segments.len(),
        forall|i: int| 0 <= i < segments.len() ==> is_plain_segment(#[trigger] segments[i]),
    ensures
        leading(segments, n) == segments.take(n as int),
    decreases n,
{
    if n > 0 {
        plain_segments_all_lead(segments, (n - 1) as nat);
        assert(is_plain_segment(segments[n - 1]));
        assert(segments.take(n as int) =~= segments.take(n - 1).push(segments[n - 1]));
    } else {
        assert(segments.take(0) =~= Seq::empty());
    }
}

/// A plain path is a relative one, and a tar archive holds an entry under it as it was given.
pub proof fn plain_paths_are_kept(path: Seq<char>)
    requires
        is_plain_path(path),
    ensures
        is_relative_path(path),
        tar_path(path) == path,
{
    let k = Class::Only('/');
    let segments = split(path, k);
    plain_paths_stay(path);
    find_is_first(path, k);
    if path[0] == '/' {
        assert(k.holds(path[0]));
        assert(find(path, k) == 0);
        assert(segments[0] == path.take(0));
        assert(is_plain_segment(segments[0]));
    }
    if path.last() == '/' {
        split_ends_empty(path);
        assert(is_plain_segment(segments[segments.len() - 1]));
    }
    if steps_up(path) {
        let i = choose|i: int| 0 <= i < segments.len() && segments[i] == seq!['.', '.'];
        assert(is_plain_segment(segments[i]));
    }
    plain_segments_all_lead(segments, segments.len());
    assert(segments.take(segments.len() as int) =~= segments);
    joining_undoes_splitting(path, '/');
    assert(tidied(path) == path);
}

proof fn plain_entries_are_carried_up_to(entries: Seq<EntryView>, n: nat)
    requires
        n <= entries.len(),
        all_plain(entries),
        forall|i: int|
            0 <= i < entries.len() ==> !is_sidecar((#[trigger] entries[i]).path)
                && !entries[i].stored,
    ensures
        carried(tar_of(entries).items, n) == entries.take(n as int),
    decreases n,
{
    if n > 0 {
        plain_entries_are_carried_up_to(entries, (n - 1) as nat);
        let entry = entries[n - 1];
        plain_paths_stay(entry.path);
        plain_paths_are_kept(entry.path);
        assert(!is_sidecar(entry.path));
        assert(entries.take(n as int) =~= entries.take(n - 1).push(entry));
    } else {
        assert(entries.take(0) =~= Seq::empty());
    }
}

/// What is written to a tar stream is carried over from it unchanged: a restored bundle, downloaded
/// again, has the same entries.
pub proof fn plain_entries_are_carried(entries: Seq<EntryView>)
    requires
        all_plain(entries),
        forall|i: int|
            0 <= i < entries.len() ==> !is_sidecar((#[trigger] entries[i]).path)
                && !entries[i].stored,
    ensures
        carried_of(tar_of(entries)) == entries,
{
    plain_entries_are_carried_up_to(entries, entries.len());
    assert(entries.take(entries.len() as int) =~= entries);
}

} // verus!
