//! Uploads and downloads: what is accepted, where it goes, and what the files are called.
use vstd::prelude::*;
use crate::action::from_file;
use crate::bundle::Rmdoc;
use crate::client::{file_in, packing, Client};
use crate::error::{agrees, Error, ErrorView};
use crate::glob::{can_expand, expand_refs, expanded};
use crate::pathmap::{keys, put, put_sets_one_key, value_of, PathMap};
use crate::resolve::{
    conflicts,
    ensure_no_conflict,
    find_item,
    first_from_is_listed,
    first_is_only,
    first_item,
    resolve_folder_ref,
    resolve_item_ref,
    resolved,
    resolved_folder,
    shown_parent,
};
use crate::snapshot::{ascii_lowercase, to_ascii_lower};
use crate::ssh::{quoted, shell_quote};
use crate::text::{
    ascending,
    cat,
    cat3,
    cat5,
    extend,
    from_chars,
    lines,
    lines_in,
    pieces,
    rsplit_once,
    rsplit_once_in,
    split_once,
    split_once_in,
    str_eq,
    to_chars,
    trim,
    trim_in,
    trim_start,
    trim_start_in,
    Class,
};
use crate::text_laws::{edges_are_trimmed, first_cuts, is_free_of, last_cuts, starts_are_trimmed};
use crate::xochitl::{Item, ItemView};

verus! {

/// How a local file is uploaded.
#[derive(Debug, PartialEq, Eq)]
pub enum UploadKind {
    /// As the payload of a new document of the given type.
    Payload(String),
    /// As a bundle that is restored under a fresh UUID.
    Bundle,
}

/// What an [`UploadKind`] holds.
pub enum UploadView {
    Payload(Seq<char>),
    Bundle,
}

impl DeepView for UploadKind {
    type V = UploadView;

    open spec fn deep_view(&self) -> UploadView {
        match *self {
            UploadKind::Payload(t) => UploadView::Payload(t@),
            UploadKind::Bundle => UploadView::Bundle,
        }
    }
}

/// How a file with the given extension is uploaded; the extension counts in any case.
pub open spec fn upload_of(extension: Option<Seq<char>>) -> Result<UploadView, ErrorView> {
    let ext = match extension {
        Some(e) => ascii_lowercase(e),
        None => ""@,
    };
    if ext == "pdf"@ || ext == "epub"@ {
        Ok(UploadView::Payload(ext))
    } else if ext == "rmdoc"@ {
        Ok(UploadView::Bundle)
    } else {
        Err(ErrorView::UnsupportedFileType(ext))
    }
}

/// The visible name for an upload: an explicit one, or the file name without its extension.
pub open spec fn name_or_stem(name: Option<Seq<char>>, stem: Option<Seq<char>>) -> Seq<char> {
    match name {
        Some(n) => n,
        None => match stem {
            Some(s) => s,
            None => "untitled"@,
        },
    }
}

/// The visible name for an upload: an explicit one, or the file name without its extension.
pub fn default_name(visible_name: Option<&str>, stem: Option<&str>) -> (r: String)
    ensures
        r@ == name_or_stem(visible_name.deep_view(), stem.deep_view()),
{
    match visible_name {
        Some(name) => name.to_owned(),
        None => match stem {
            Some(stem) => stem.to_owned(),
            None => "untitled".to_owned(),
        },
    }
}

/// The visible name for a restored bundle: an explicit one, the one recorded in it, or the file name
/// without its extension.
pub fn bundle_name(visible_name: Option<&str>, rmdoc: &Rmdoc, stem: Option<&str>) -> (r: String)
    ensures
        r@ == name_or_stem(
            match visible_name {
                Some(name) => Some(name@),
                None => rmdoc.deep_view().metadata.text("visibleName"@),
            },
            stem.deep_view(),
        ),
{
    match visible_name {
        Some(name) => name.to_owned(),
        None => default_name(rmdoc.visible_name(), stem),
    }
}

/// The folder into which something new of the given name goes.
pub open spec fn place_for(items: Seq<ItemView>, parent_ref: Seq<char>, name: Seq<char>) -> Result<
    Seq<char>,
    ErrorView,
> {
    match resolved_folder(items, parent_ref) {
        Err(e) => Err(e),
        Ok(parent) => if conflicts(items, parent, name, None) {
            Err(ErrorView::NameConflict { name, parent: shown_parent(parent) })
        } else {
            Ok(parent)
        },
    }
}

/// The UUID of the folder into which something new of the given name goes; errs where there is no
/// such folder or the name is taken.
pub fn place_new(items: &[Item], parent_ref: &str, name: &str) -> (r: Result<String, Error>)
    ensures
        agrees(r, place_for(items.deep_view(), parent_ref@, name@)),
{
    match resolve_folder_ref(items, parent_ref) {
        Err(e) => Err(e),
        Ok(parent) => {
            let none: Option<&str> = None;
            assert(none.deep_view() is None);
            match ensure_no_conflict(items, parent.as_str(), name, none) {
                Ok(()) => Ok(parent),
                Err(e) => Err(e),
            }
        },
    }
}

/// Whether a document is a native notebook, which has no payload file.
pub open spec fn is_notebook(item: ItemView) -> bool {
    item.file_type is None || item.file_type == Some("notebook"@)
}

/// The local name of a download: notebooks and forced bundles become `.rmdoc` files, payloads keep
/// their type.
pub open spec fn download_name(item: ItemView, bundle: bool) -> Seq<char> {
    if bundle || is_notebook(item) {
        item.visible_name + ".rmdoc"@
    } else {
        item.visible_name + "."@ + item.file_type->Some_0
    }
}

/// The local name of a download.
pub fn download_filename(item: &Item, bundle: bool) -> (r: String)
    ensures
        r@ == download_name(item.deep_view(), bundle),
{
    if !bundle {
        if let Some(file_type) = &item.file_type {
            if !str_eq(file_type.as_str(), "notebook") {
                return cat3(item.visible_name.as_str(), ".", file_type.as_str());
            }
        }
    }
    cat(item.visible_name.as_str(), ".rmdoc")
}

/// Where a download goes.
#[derive(Debug, Clone, Copy, PartialEq, Eq, Structural)]
pub enum Destination {
    /// To a file of its own name in the current directory.
    Here,
    /// To a file of its own name in the given directory.
    Inside,
    /// To the given file.
    Exactly,
}

/// Where a download goes, by the output that was asked for and whether that is a directory.
pub fn resolve_destination(output_is_dir: Option<bool>) -> (r: Destination)
    ensures
        r == match output_is_dir {
            None => Destination::Here,
            Some(true) => Destination::Inside,
            Some(false) => Destination::Exactly,
        },
{
    match output_is_dir {
        None => Destination::Here,
        Some(is_dir) => if is_dir {
            Destination::Inside
        } else {
            Destination::Exactly
        },
    }
}

/// Where a download comes from.
#[derive(Debug)]
pub enum Source {
    /// A script that prints a tar stream, to be repacked as a bundle.
    Bundle { script: String },
    /// A command that prints the payload, with its size where it is known.
    Payload { command: String, size: Option<u64> },
}

/// What a [`Source`] holds.
pub enum SourceView {
    Bundle { script: Seq<char> },
    Payload { command: Seq<char>, size: Option<u64> },
}

impl DeepView for Source {
    type V = SourceView;

    open spec fn deep_view(&self) -> SourceView {
        match *self {
            Source::Bundle { script } => SourceView::Bundle { script: script@ },
            Source::Payload { command, size } => SourceView::Payload { command: command@, size },
        }
    }
}

/// Where the download of a document comes from.
pub open spec fn source_of(dir: Seq<char>, item: ItemView, bundle: bool) -> SourceView {
    if bundle || is_notebook(item) {
        SourceView::Bundle { script: packing(dir, item.uuid) }
    } else {
        SourceView::Payload {
            command: from_file(file_in(dir, item.uuid, item.file_type->Some_0)),
            size: item.size_bytes,
        }
    }
}

/// The document that a reference means.
pub open spec fn document_meant(items: Seq<ItemView>, item_ref: Seq<char>) -> Result<
    ItemView,
    ErrorView,
> {
    match resolved(items, item_ref) {
        Err(e) => Err(e),
        Ok(item) => if item.is_folder() {
            Err(ErrorView::NotADocument(item_ref))
        } else {
            Ok(item)
        },
    }
}

/// The documents with the first `n` of the given UUIDs; folders and unknown UUIDs are left out.
pub open spec fn documents_of(items: Seq<ItemView>, uuids: Seq<Seq<char>>, n: nat) -> Seq<ItemView>
    decreases n,
{
    if n == 0 {
        Seq::empty()
    } else {
        let before = documents_of(items, uuids, (n - 1) as nat);
        match first_item(items, uuids[n - 1]) {
            Some(item) => if item.is_folder() {
                before
            } else {
                before.push(item)
            },
            None => before,
        }
    }
}

/// Whether one of the first `n` documents is downloaded under the given name.
pub open spec fn is_taken(docs: Seq<ItemView>, n: int, bundle: bool, name: Seq<char>) -> bool {
    exists|i: int| 0 <= i < n && download_name(#[trigger] docs[i], bundle) == name
}

/// The visible name of the first of the first `n` documents whose local name is taken by then.
pub open spec fn colliding(docs: Seq<ItemView>, n: nat, bundle: bool) -> Option<Seq<char>>
    decreases n,
{
    if n == 0 {
        None
    } else {
        match colliding(docs, (n - 1) as nat, bundle) {
            Some(name) => Some(name),
            None => if is_taken(docs, n - 1, bundle, download_name(docs[n - 1], bundle)) {
                Some(docs[n - 1].visible_name)
            } else {
                None
            },
        }
    }
}

/// The documents that a download of a reference or a pattern takes. `output` is where they go, and
/// whether that is a directory.
pub open spec fn downloads(
    items: Seq<ItemView>,
    item_ref: Seq<char>,
    output: Option<(Seq<char>, bool)>,
    bundle: bool,
) -> Result<Seq<ItemView>, ErrorView> {
    match expanded(items, seq![item_ref], 1) {
        Err(e) => Err(e),
        Ok(uuids) => {
            let docs = documents_of(items, uuids, uuids.len());
            if docs.len() == 0 {
                Err(ErrorView::NotADocument(item_ref))
            } else if docs.len() > 1 && (output matches Some((_, is_dir)) && !is_dir) {
                Err(ErrorView::OutputNotADirectory(output->Some_0.0))
            } else if docs.len() > 1 && colliding(docs, docs.len(), bundle) is Some {
                Err(
                    ErrorView::NameConflict {
                        name: colliding(docs, docs.len(), bundle)->Some_0,
                        parent: "the output directory"@,
                    },
                )
            } else {
                Ok(docs)
            }
        },
    }
}

proof fn colliding_stops(docs: Seq<ItemView>, n: nat, m: nat, bundle: bool)
    requires
        n <= m,
        colliding(docs, n, bundle) is Some,
    ensures
        colliding(docs, m, bundle) == colliding(docs, n, bundle),
    decreases m,
{
    if n < m {
        colliding_stops(docs, n, (m - 1) as nat, bundle);
    }
}

fn find_collision<'a>(docs: &Vec<&'a Item>, bundle: bool) -> (r: Option<&'a Item>)
    ensures
        match r {
            Some(doc) => colliding(docs.deep_view(), docs.len() as nat, bundle) == Some(
                doc.visible_name@,
            ),
            None => colliding(docs.deep_view(), docs.len() as nat, bundle) is None,
        },
{
    let ghost views = docs.deep_view();
    let mut i: usize = 0;
    while i < docs.len()
        invariant
            i <= docs.len(),
            views == docs.deep_view(),
            colliding(views, i as nat, bundle) is None,
        decreases docs.len() - i,
    {
        assert(views[i as int] == docs[i as int].deep_view());
        let name = download_filename(docs[i], bundle);
        let mut k: usize = 0;
        while k < i
            invariant
                k <= i < docs.len(),
                views == docs.deep_view(),
                views[i as int] == docs[i as int].deep_view(),
                name@ == download_name(views[i as int], bundle),
                colliding(views, i as nat, bundle) is None,
                forall|j: int| 0 <= j < k ==> download_name(#[trigger] views[j], bundle) != name@,
            decreases i - k,
        {
            assert(views[k as int] == docs[k as int].deep_view());
            let other = download_filename(docs[k], bundle);
            if str_eq(other.as_str(), name.as_str()) {
                proof {
                    assert(is_taken(views, i as int, bundle, name@));
                    colliding_stops(views, (i + 1) as nat, views.len(), bundle);
                }
                return Some(docs[i]);
            }
            k += 1;
        }
        assert(!is_taken(views, i as int, bundle, name@));
        i += 1;
    }
    None
}

impl<P> Client<P> {
    /// How a local file is uploaded: PDF and EPUB files as they are, `.rmdoc` files as bundles.
    /// `is_file` tells whether there is such a file, `extension` what its name ends with.
    pub fn upload(&self, local: &str, is_file: bool, extension: Option<&str>) -> (r: Result<
        UploadKind,
        Error,
    >)
        ensures
            agrees(
                r,
                if is_file {
                    upload_of(extension.deep_view())
                } else {
                    Err(ErrorView::FileNotFound(local@))
                },
            ),
    {
        if !is_file {
            return Err(Error::FileNotFound(local.to_owned()));
        }
        let ext = match extension {
            Some(e) => from_chars(&to_ascii_lower(&to_chars(e))),
            None => "".to_owned(),
        };
        if str_eq(ext.as_str(), "pdf") || str_eq(ext.as_str(), "epub") {
            Ok(UploadKind::Payload(ext))
        } else if str_eq(ext.as_str(), "rmdoc") {
            proof {
                reveal_strlit("pdf");
                reveal_strlit("epub");
                reveal_strlit("rmdoc");
            }
            Ok(UploadKind::Bundle)
        } else {
            Err(Error::UnsupportedFileType(ext))
        }
    }

    /// The document that a download takes.
    pub fn download<'a>(&self, items: &'a [Item], item_ref: &str) -> (r: Result<&'a Item, Error>)
        ensures
            agrees(
                r,
                match resolved(items.deep_view(), item_ref@) {
                    Err(e) => Err(e),
                    Ok(item) => if item.is_folder() {
                        Err(ErrorView::NotADocument(item_ref@))
                    } else {
                        Ok(item)
                    },
                },
            ),
            agrees(r, document_meant(items.deep_view(), item_ref@)),
    {
        match resolve_item_ref(items, item_ref) {
            Err(e) => Err(e),
            Ok(item) => {
                if item.is_document() {
                    Ok(item)
                } else {
                    Err(Error::NotADocument(item_ref.to_owned()))
                }
            },
        }
    }

    /// The documents that a download of a reference or a glob pattern takes. With several, the
    /// output has to be a directory (or absent, for the current one), folders are skipped
    /// (`Books/*` takes the documents in Books, `Books/**` goes deeper), and local names that
    /// collide are rejected before anything is transferred.
    pub fn download_matching<'a>(
        &self,
        items: &'a [Item],
        item_ref: &str,
        output: Option<(&str, bool)>,
        bundle: bool,
    ) -> (r: Result<Vec<&'a Item>, Error>)
        requires
            can_expand(items.deep_view(), seq![item_ref@]),
        ensures
            agrees(
                r,
                downloads(
                    items.deep_view(),
                    item_ref@,
                    match output {
                        Some((path, is_dir)) => Some((path@, is_dir)),
                        None => None,
                    },
                    bundle,
                ),
            ),
    {
        let ghost all = items.deep_view();
        let refs: [&str; 1] = [item_ref];
        assert(refs.deep_view() =~= seq![item_ref@]);
        let found = match expand_refs(items, &refs) {
            Err(e) => {
                return Err(e);
            },
            Ok(found) => found,
        };
        let ghost uuids = found.deep_view();
        let mut docs: Vec<&'a Item> = Vec::new();
        let mut i: usize = 0;
        assert(docs.deep_view() =~= Seq::empty());
        while i < found.len()
            invariant
                i <= found.len(),
                all == items.deep_view(),
                uuids == found.deep_view(),
                docs.deep_view() == documents_of(all, uuids, i as nat),
            decreases found.len() - i,
        {
            let ghost before = docs.deep_view();
            assert(uuids[i as int] == found[i as int]@);
            if let Some(item) = find_item(items, found[i].as_str()) {
                if item.is_document() {
                    docs.push(item);
                    assert(docs.deep_view() =~= before.push(item.deep_view()));
                }
            }
            i += 1;
        }
        assert(docs.deep_view().len() == docs.len());
        if docs.len() == 0 {
            return Err(Error::NotADocument(item_ref.to_owned()));
        }
        if docs.len() > 1 {
            if let Some((path, is_dir)) = output {
                if !is_dir {
                    return Err(Error::OutputNotADirectory(path.to_owned()));
                }
            }
            if let Some(doc) = find_collision(&docs, bundle) {
                return Err(
                    Error::NameConflict {
                        name: doc.visible_name.clone(),
                        parent: "the output directory".to_owned(),
                    },
                );
            }
        }
        Ok(docs)
    }

    /// Where the download of a document comes from. Notebooks have no payload file and always
    /// download as bundles; `bundle` forces that for others too, which captures annotations.
    pub fn download_source(&self, item: &Item, bundle: bool) -> (r: Source)
        ensures
            r.deep_view() == source_of(self.dir@, item.deep_view(), bundle),
    {
        if !bundle {
            if let Some(file_type) = &item.file_type {
                if !str_eq(file_type.as_str(), "notebook") {
                    return Source::Payload {
                        command: self.download_payload_to(item.uuid.as_str(), file_type.as_str()),
                        size: item.size_bytes,
                    };
                }
            }
        }
        Source::Bundle { script: self.fetch_item_tar(item.uuid.as_str()) }
    }

    /// The script that hashes the payloads with the given UUIDs and extensions in one round trip.
    /// Missing files and hosts without `sha256sum` drop out of its output.
    pub fn payload_hashes(&self, targets: &Vec<(String, String)>) -> (r: String)
        ensures
            r@ == hash_script(self.dir@, targets.deep_view()),
    {
        let ghost views = targets.deep_view();
        let mut files: Vec<char> = Vec::new();
        let end = to_chars(" \\\n");
        let mut i: usize = 0;
        while i < targets.len()
            invariant
                i <= targets.len(),
                views == targets.deep_view(),
                end@ == " \\\n"@,
                files@ == hashed_files(views, i as nat),
            decreases targets.len() - i,
        {
            assert(views[i as int] == (targets[i as int].0@, targets[i as int].1@));
            let name = cat3(targets[i].0.as_str(), ".", targets[i].1.as_str());
            let name = shell_quote(name.as_str());
            let ghost before = files@;
            extend(&mut files, &to_chars(name.as_str()));
            extend(&mut files, &end);
            assert(files@ =~= before + name@ + end@);
            i += 1;
        }
        let dir = shell_quote(self.dir.as_str());
        let files = from_chars(&files);
        cat5(
            "cd ",
            dir.as_str(),
            " || exit 9\ncommand -v sha256sum >/dev/null 2>&1 || exit 0\nfor f in ",
            files.as_str(),
            "; do [ -e \"$f\" ] && sha256sum -- \"$f\"; done\nexit 0\n",
        )
    }
}

/// The quoted names of the first `n` payloads, each with a space, a backslash and a line end.
pub open spec fn hashed_files(targets: Seq<(Seq<char>, Seq<char>)>, n: nat) -> Seq<char>
    decreases n,
{
    if n == 0 {
        Seq::empty()
    } else {
        hashed_files(targets, (n - 1) as nat) + quoted(
            targets[n - 1].0 + "."@ + targets[n - 1].1,
        ) + " \\\n"@
    }
}

/// The script that hashes payloads.
pub open spec fn hash_script(dir: Seq<char>, targets: Seq<(Seq<char>, Seq<char>)>) -> Seq<char> {
    "cd "@ + quoted(dir)
        + " || exit 9\ncommand -v sha256sum >/dev/null 2>&1 || exit 0\nfor f in "@ + hashed_files(
        targets,
        targets.len(),
    ) + "; do [ -e \"$f\" ] && sha256sum -- \"$f\"; done\nexit 0\n"@
}

/// The UUID and the hash in a line such as `HASH  uuid.ext`.
pub open spec fn hash_of_line(line: Seq<char>) -> Option<(Seq<char>, Seq<char>)> {
    match split_once(line, Class::White) {
        Some((hash, file)) => match rsplit_once(
            trim_start(trim(file, Class::White), Class::Only('*')),
            Class::Only('.'),
        ) {
            Some((uuid, _)) => if hash.len() > 0 {
                Some((uuid, hash))
            } else {
                None
            },
            None => None,
        },
        None => None,
    }
}

/// The hashes in the first `n` lines, by UUID.
pub open spec fn hashes_of(ls: Seq<Seq<char>>, n: nat) -> Seq<(Seq<char>, Seq<char>)>
    decreases n,
{
    if n == 0 {
        Seq::empty()
    } else {
        let before = hashes_of(ls, (n - 1) as nat);
        match hash_of_line(ls[n - 1]) {
            Some((uuid, hash)) => put(before, uuid, hash),
            None => before,
        }
    }
}

/// Parses the output of `sha256sum` into hashes by UUID. Other lines are ignored.
pub fn parse_payload_hashes(output: &str) -> (r: PathMap<String>)
    ensures
        r.wf(),
        r.pairs() == hashes_of(lines(output@), lines(output@).len()),
{
    let all = lines_in(&to_chars(output));
    let ghost ls = lines(output@);
    let mut hashes: PathMap<String> = PathMap::new();
    let mut i: usize = 0;
    while i < all.len()
        invariant
            i <= all.len(),
            ls == pieces(all@),
            hashes.wf(),
            hashes.pairs() == hashes_of(ls, i as nat),
        decreases all.len() - i,
    {
        assert(ls[i as int] == all[i as int]@);
        if let Some((hash, file)) = split_once_in(&all[i], &Class::White) {
            let file = trim_start_in(trim_in(file, &Class::White), &Class::Only('*'));
            if let Some((uuid, _)) = rsplit_once_in(file, &Class::Only('.')) {
                if hash.len() > 0 {
                    hashes.insert(from_chars(uuid), from_chars(hash));
                }
            }
        }
        i += 1;
    }
    hashes
}

/// Several documents that are downloaded together go to different files.
pub proof fn downloads_do_not_collide(
    items: Seq<ItemView>,
    item_ref: Seq<char>,
    output: Option<(Seq<char>, bool)>,
    bundle: bool,
    i: int,
    j: int,
)
    requires
        downloads(items, item_ref, output, bundle) is Ok,
        0 <= i < j < downloads(items, item_ref, output, bundle)->Ok_0.len(),
    ensures
        download_name(downloads(items, item_ref, output, bundle)->Ok_0[i], bundle)
            != download_name(downloads(items, item_ref, output, bundle)->Ok_0[j], bundle),
{
    let docs = downloads(items, item_ref, output, bundle)->Ok_0;
    if colliding(docs, (j + 1) as nat, bundle) is Some {
        colliding_stops(docs, (j + 1) as nat, docs.len(), bundle);
    }
    if download_name(docs[i], bundle) == download_name(docs[j], bundle) {
        assert(is_taken(docs, j, bundle, download_name(docs[j], bundle)));
    }
}

/// What a download is called says where it comes from: a bundle, taken whenever one is asked for or
/// the document has no payload of its own, is a tar stream of all the files of the document, and
/// any other download is the payload file, byte for byte.
pub proof fn downloads_come_as_they_are_named(dir: Seq<char>, item: ItemView, bundle: bool)
    ensures
        source_of(dir, item, bundle) is Bundle <==> (bundle || item.file_type is None
            || item.file_type == Some("notebook"@)),
        source_of(dir, item, bundle) matches SourceView::Bundle { script } ==> {
            &&& download_name(item, bundle) == item.visible_name + ".rmdoc"@
            &&& script == "cd "@ + quoted(dir) + " || exit 9\nset --\nfor f in "@ + quoted(item.uuid)
                + " "@ + quoted(item.uuid)
                + ".*; do [ -e \"$f\" ] && set -- \"$@\" \"$f\"; done\n[ \"$#\" -gt 0 ] || exit 8\ntar -cf - \"$@\"\n"@
        },
        source_of(dir, item, bundle) matches SourceView::Payload { command, size } ==> {
            &&& item.file_type is Some
            &&& download_name(item, bundle) == item.visible_name + "."@ + item.file_type->Some_0
            &&& command == "cat "@ + quoted(
                dir + "/"@ + (item.uuid + "."@ + item.file_type->Some_0),
            )
            &&& size == item.size_bytes
        },
{
}

/// Whether a text is a word up to the case of ASCII letters.
pub open spec fn spells(text: Seq<char>, word: Seq<char>) -> bool {
    &&& text.len() == word.len()
    &&& forall|i: int|
        0 <= i < word.len() ==> (#[trigger] text[i] == word[i] || 'A' <= text[i] <= 'Z'
            && word[i] == (text[i] as u32 + 32) as char)
}

pub(crate) proof fn lowered_texts_are_spelled(text: Seq<char>, word: Seq<char>)
    requires
        forall|i: int| 0 <= i < word.len() ==> !('A' <= #[trigger] word[i] <= 'Z'),
    ensures
        ascii_lowercase(text) == word <==> spells(text, word),
{
    let low = ascii_lowercase(text);
    if low == word {
        assert forall|i: int| 0 <= i < word.len() implies (#[trigger] text[i] == word[i] || 'A'
            <= text[i] <= 'Z' && word[i] == (text[i] as u32 + 32) as char) by {
            assert(low[i] == word[i]);
        }
    }
    if spells(text, word) {
        assert forall|i: int| 0 <= i < word.len() implies low[i] == word[i] by {
            assert(text[i] == word[i] || 'A' <= text[i] <= 'Z' && word[i] == (text[i] as u32
                + 32) as char);
        }
        assert(low =~= word);
    }
}

/// A file is uploaded as a PDF, an EPUB or a bundle exactly where its extension spells so in any
/// case; nothing else is taken, and a file without an extension never is.
pub proof fn uploads_go_by_extension(extension: Seq<char>)
    ensures
        upload_of(Some(extension)) == Ok::<UploadView, ErrorView>(UploadView::Payload("pdf"@))
            <==> spells(extension, "pdf"@),
        upload_of(Some(extension)) == Ok::<UploadView, ErrorView>(UploadView::Payload("epub"@))
            <==> spells(extension, "epub"@),
        upload_of(Some(extension)) == Ok::<UploadView, ErrorView>(UploadView::Bundle) <==> spells(
            extension,
            "rmdoc"@,
        ),
        upload_of(Some(extension)) is Ok <==> spells(extension, "pdf"@) || spells(
            extension,
            "epub"@,
        ) || spells(extension, "rmdoc"@),
        upload_of(Some(extension)) matches Err(e) ==> e is UnsupportedFileType && spells(
            extension,
            e->UnsupportedFileType_0,
        ),
        upload_of(None) == Err::<UploadView, ErrorView>(ErrorView::UnsupportedFileType(""@)),
{
    reveal_strlit("");
    reveal_strlit("pdf");
    reveal_strlit("epub");
    reveal_strlit("rmdoc");
    lowered_texts_are_spelled(extension, "pdf"@);
    lowered_texts_are_spelled(extension, "epub"@);
    lowered_texts_are_spelled(extension, "rmdoc"@);
    assert("pdf"@ != "epub"@);
    assert("rmdoc"@ != "epub"@);
    assert("rmdoc"@ != "pdf"@);
    assert(""@.len() == 0);
    let low = ascii_lowercase(extension);
    assert forall|i: int| 0 <= i < low.len() implies !('A' <= #[trigger] low[i] <= 'Z') by {
        let c = extension[i];
    }
    lowered_texts_are_spelled(extension, low);
}

/// Something new goes into the folder that was asked for, unless one of its items has the name
/// already: then nothing is placed, and the error names both.
pub proof fn new_items_take_no_taken_name(
    items: Seq<ItemView>,
    parent_ref: Seq<char>,
    name: Seq<char>,
    parent: Seq<char>,
)
    requires
        resolved_folder(items, parent_ref) == Ok::<Seq<char>, ErrorView>(parent),
    ensures
        (exists|i: int|
            0 <= i < items.len() && (#[trigger] items[i]).parent == parent && items[i].visible_name
                == name) ==> (place_for(items, parent_ref, name) matches Err(
            ErrorView::NameConflict { name: n, parent: p },
        ) && n == name && p == if parent.len() == 0 {
            "(root)"@
        } else {
            parent
        }),
        (forall|i: int|
            0 <= i < items.len() && (#[trigger] items[i]).parent == parent
                ==> items[i].visible_name != name) ==> place_for(items, parent_ref, name) == Ok::<
            Seq<char>,
            ErrorView,
        >(parent),
{
}

proof fn documents_are_those_meant(
    items: Seq<ItemView>,
    uuids: Seq<Seq<char>>,
    n: nat,
    item: ItemView,
)
    requires
        n <= uuids.len(),
        forall|i: int, j: int|
            0 <= i < j < items.len() ==> (#[trigger] items[i]).uuid != (#[trigger] items[j]).uuid,
    ensures
        documents_of(items, uuids, n).contains(item) <==> items.contains(item) && !item.is_folder()
            && exists|k: int| 0 <= k < n && #[trigger] uuids[k] == item.uuid,
    decreases n,
{
    if n > 0 {
        documents_are_those_meant(items, uuids, (n - 1) as nat, item);
        let before = documents_of(items, uuids, (n - 1) as nat);
        let all = documents_of(items, uuids, n);
        let uuid = uuids[n - 1];
        found_items_are_listed(items, uuid);
        if before.contains(item) {
            let k = choose|k: int| 0 <= k < before.len() && before[k] == item;
            assert(all[k] == item);
            let at = choose|at: int| 0 <= at < n - 1 && #[trigger] uuids[at] == item.uuid;
            assert(uuids[at] == item.uuid);
        }
        if all.contains(item) && !before.contains(item) {
            let k = choose|k: int| 0 <= k < all.len() && all[k] == item;
            if k < before.len() {
                assert(before[k] == item);
            }
            assert(first_item(items, uuid) == Some(item));
            assert(uuids[n - 1] == item.uuid);
        }
        if items.contains(item) && !item.is_folder() && uuid == item.uuid {
            let k = choose|k: int| 0 <= k < items.len() && items[k] == item;
            first_is_only(items, 0, k);
            assert(all.last() == item);
        }
    }
}

/// A download takes exactly the documents that its reference stands for; folders among them are
/// passed over. One document can go anywhere, and several only into a directory, each to a file of
/// its own.
pub proof fn downloads_take_the_documents_meant(
    items: Seq<ItemView>,
    item_ref: Seq<char>,
    output: Option<(Seq<char>, bool)>,
    bundle: bool,
    item: ItemView,
)
    requires
        forall|i: int, j: int|
            0 <= i < j < items.len() ==> (#[trigger] items[i]).uuid != (#[trigger] items[j]).uuid,
    ensures
        expanded(items, seq![item_ref], 1) matches Err(e) ==> downloads(
            items,
            item_ref,
            output,
            bundle,
        ) == Err::<Seq<ItemView>, ErrorView>(e),
        expanded(items, seq![item_ref], 1) matches Ok(uuids) ==> {
            let is_meant = items.contains(item) && !item.is_folder() && uuids.contains(item.uuid);
            match downloads(items, item_ref, output, bundle) {
                Ok(docs) => (docs.contains(item) <==> is_meant) && docs.len() > 0 && (docs.len() > 1
                    ==> (output matches Some((_, is_dir)) ==> is_dir)),
                Err(ErrorView::NotADocument(r)) => r == item_ref && !is_meant,
                Err(ErrorView::OutputNotADirectory(path)) => output == Some((path, false)),
                Err(ErrorView::NameConflict { name, parent }) => parent == "the output directory"@
                    && exists|i: int, j: int|
                    0 <= i < items.len() && 0 <= j < items.len() && uuids.contains(
                        (#[trigger] items[i]).uuid,
                    ) && uuids.contains((#[trigger] items[j]).uuid) && items[j].visible_name == name
                        && download_name(items[i], bundle) == download_name(items[j], bundle),
                Err(_) => false,
            }
        },
{
    if let Ok(uuids) = expanded(items, seq![item_ref], 1) {
        let docs = documents_of(items, uuids, uuids.len());
        documents_are_those_meant(items, uuids, uuids.len(), item);
        if uuids.contains(item.uuid) {
            let k = choose|k: int| 0 <= k < uuids.len() && uuids[k] == item.uuid;
            assert(uuids[k] == item.uuid);
        }
        if docs.contains(item) {
            assert(docs.len() > 0);
        }
        if colliding(docs, docs.len(), bundle) is Some {
            let (a, b) = collisions_have_two_sides(docs, docs.len(), bundle);
            assert(docs.contains(docs[a]) && docs.contains(docs[b]));
            documents_are_those_meant(items, uuids, uuids.len(), docs[a]);
            documents_are_those_meant(items, uuids, uuids.len(), docs[b]);
            let i = choose|i: int| 0 <= i < items.len() && items[i] == docs[a];
            let j = choose|j: int| 0 <= j < items.len() && items[j] == docs[b];
            assert(uuids.contains(items[i].uuid) && uuids.contains(items[j].uuid));
        }
    }
}

proof fn collisions_have_two_sides(docs: Seq<ItemView>, n: nat, bundle: bool) -> (r: (int, int))
    requires
        n <= docs.len(),
        colliding(docs, n, bundle) is Some,
    ensures
        0 <= r.0 < r.1 < n,
        colliding(docs, n, bundle) == Some(docs[r.1].visible_name),
        download_name(docs[r.0], bundle) == download_name(docs[r.1], bundle),
    decreases n,
{
    if colliding(docs, (n - 1) as nat, bundle) is Some {
        colliding_stops(docs, (n - 1) as nat, n, bundle);
        collisions_have_two_sides(docs, (n - 1) as nat, bundle)
    } else {
        let i = choose|i: int|
            0 <= i < n - 1 && download_name(#[trigger] docs[i], bundle) == download_name(
                docs[n - 1],
                bundle,
            );
        (i, n - 1)
    }
}

proof fn found_items_are_listed(items: Seq<ItemView>, uuid: Seq<char>)
    ensures
        first_item(items, uuid) matches Some(item) ==> items.contains(item) && item.uuid == uuid,
{
    first_from_is_listed(items, 0, uuid);
}

/// A line of hashes is a hash, white space, a star where the file was read as bytes, and the file
/// that it is of, which is named by its UUID and its type.
pub proof fn hashes_are_of_their_files(
    hash: Seq<char>,
    uuid: Seq<char>,
    extension: Seq<char>,
)
    requires
        hash.len() > 0,
        is_free_of(hash, Class::White),
        is_free_of(uuid, Class::White),
        is_free_of(extension, Class::White),
        uuid.len() > 0,
        uuid[0] != '*',
        is_free_of(extension, Class::Only('.')),
    ensures
        hash_of_line(hash + seq![' ', ' '] + (uuid + seq!['.'] + extension)) == Some((uuid, hash)),
        hash_of_line(hash + seq![' ', '*'] + (uuid + seq!['.'] + extension)) == Some((uuid, hash)),
{
    let none = Seq::<char>::empty();
    let file = uuid + seq!['.'] + extension;
    let star = Class::Only('*');
    assert(!Class::White.holds(uuid[0]));
    assert(file[0] == uuid[0]);
    assert(!Class::White.holds(file.last())) by {
        if extension.len() > 0 {
            assert(file.last() == extension[extension.len() - 1]);
        }
    }
    let plain = seq![' '] + file;
    let marked = seq!['*'] + file;
    assert(hash + seq![' ', ' '] + file =~= hash + seq![' '] + plain);
    assert(hash + seq![' ', '*'] + file =~= hash + seq![' '] + marked);
    first_cuts(hash, ' ', plain, Class::White);
    first_cuts(hash, ' ', marked, Class::White);
    edges_are_trimmed(seq![' '], file, none, Class::White);
    assert(seq![' '] + file + none =~= plain);
    assert(marked[0] == '*' && marked.last() == file.last());
    edges_are_trimmed(none, marked, none, Class::White);
    assert(none + marked + none =~= marked);
    starts_are_trimmed(none, file, star);
    starts_are_trimmed(seq!['*'], file, star);
    assert(none + file =~= file);
    last_cuts(uuid, '.', extension, Class::Only('.'));
}

/// Every line of hashes counts; of several about one document, the last one does.
pub proof fn every_hash_counts(
    ls: Seq<Seq<char>>,
    line: Seq<char>,
    uuid: Seq<char>,
)
    ensures
        ({
            let before = hashes_of(ls, ls.len());
            let after = hashes_of(ls.push(line), ls.len() + 1);
            value_of(after, uuid) == match hash_of_line(line) {
                Some((u, hash)) => if u == uuid {
                    Some(hash)
                } else {
                    value_of(before, uuid)
                },
                None => value_of(before, uuid),
            }
        }),
        value_of(hashes_of(ls, 0), uuid) is None,
{
    hashes_of_a_prefix(ls, line, ls.len());
    assert(ls.push(line)[ls.len() as int] == line);
    if let Some((u, hash)) = hash_of_line(line) {
        put_sets_one_key(hashes_of(ls, ls.len()), u, hash);
    }
}

proof fn hashes_of_a_prefix(ls: Seq<Seq<char>>, line: Seq<char>, n: nat)
    requires
        n <= ls.len(),
    ensures
        hashes_of(ls.push(line), n) == hashes_of(ls, n),
        ascending(keys(hashes_of(ls, n))),
    decreases n,
{
    if n > 0 {
        hashes_of_a_prefix(ls, line, (n - 1) as nat);
        assert(ls.push(line)[n - 1] == ls[n - 1]);
        if let Some((u, hash)) = hash_of_line(ls[n - 1]) {
            put_sets_one_key(hashes_of(ls, (n - 1) as nat), u, hash);
        }
    }
}

/// The script that hashes payloads names each of them, in order, by its UUID and its type.
pub proof fn every_payload_is_hashed(
    targets: Seq<(Seq<char>, Seq<char>)>,
    uuid: Seq<char>,
    extension: Seq<char>,
)
    ensures
        hashed_files(targets.push((uuid, extension)), targets.len() + 1) == hashed_files(
            targets,
            targets.len(),
        ) + quoted(uuid + "."@ + extension) + " \\\n"@,
        hashed_files(targets, 0).len() == 0,
{
    named_in_a_prefix(targets, (uuid, extension), targets.len());
}

proof fn named_in_a_prefix(
    targets: Seq<(Seq<char>, Seq<char>)>,
    more: (Seq<char>, Seq<char>),
    n: nat,
)
    requires
        n <= targets.len(),
    ensures
        hashed_files(targets.push(more), n) == hashed_files(targets, n),
    decreases n,
{
    if n > 0 {
        named_in_a_prefix(targets, more, (n - 1) as nat);
        assert(targets.push(more)[n - 1] == targets[n - 1]);
    }
}

/// What is uploaded is called as it was asked to be; without a name it is called after its file, and
/// `untitled` where even that has none.
pub proof fn uploads_are_named_after_their_file(name: Seq<char>, stem: Option<Seq<char>>)
    ensures
        name_or_stem(Some(name), stem) == name,
        name_or_stem(None, Some(name)) == name,
        name_or_stem(None, None) == "untitled"@,
{
}

/// The script that hashes payloads goes to the data directory, does nothing where there is no tool for
/// it, and hashes each of the named files that is there.
pub proof fn hashing_is_best_effort(dir: Seq<char>, targets: Seq<(Seq<char>, Seq<char>)>)
    ensures
        hash_script(dir, targets) == "cd "@ + quoted(dir)
            + " || exit 9\ncommand -v sha256sum >/dev/null 2>&1 || exit 0\nfor f in "@
            + hashed_files(targets, targets.len())
            + "; do [ -e \"$f\" ] && sha256sum -- \"$f\"; done\nexit 0\n"@,
{
}

proof fn documents_are_positions(items: Seq<ItemView>, uuids: Seq<Seq<char>>, n: nat) -> (at: Seq<int>)
    requires
        n <= uuids.len(),
    ensures
        at.len() == documents_of(items, uuids, n).len(),
        forall|k: int|
            0 <= k < at.len() ==> 0 <= #[trigger] at[k] < n && (first_item(items, uuids[at[k]])
                matches Some(item) && !item.is_folder() && documents_of(items, uuids, n)[k] == item),
        forall|j: int, k: int| 0 <= j < k < at.len() ==> #[trigger] at[j] < #[trigger] at[k],
        forall|i: int|
            0 <= i < n && (first_item(items, #[trigger] uuids[i]) matches Some(item)
                && !item.is_folder()) ==> at.contains(i),
    decreases n,
{
    if n == 0 {
        Seq::empty()
    } else {
        let before = documents_are_positions(items, uuids, (n - 1) as nat);
        if first_item(items, uuids[n - 1]) matches Some(item) && !item.is_folder() {
            let at = before.push(n - 1);
            assert forall|i: int|
                0 <= i < n && (first_item(items, #[trigger] uuids[i]) matches Some(item)
                    && !item.is_folder()) implies at.contains(i) by {
                if i < n - 1 {
                    assert(before.contains(i));
                    let k = choose|k: int| 0 <= k < before.len() && before[k] == i;
                    assert(at[k] == i);
                } else {
                    assert(at[before.len() as int] == i);
                }
            }
            at
        } else {
            before
        }
    }
}

/// How many documents a reference stands for decides where they can go; `at` are their positions among
/// all that it stands for. None is an error. A single one is taken, whatever the output is. Several are
/// taken in order, but not into a file, and not where two of them would have the same name.
pub proof fn several_documents_need_a_directory(
    items: Seq<ItemView>,
    item_ref: Seq<char>,
    output: Option<(Seq<char>, bool)>,
    bundle: bool,
    uuids: Seq<Seq<char>>,
) -> (at: Seq<int>)
    requires
        expanded(items, seq![item_ref], 1) == Ok::<Seq<Seq<char>>, ErrorView>(uuids),
    ensures
        forall|j: int, k: int| 0 <= j < k < at.len() ==> #[trigger] at[j] < #[trigger] at[k],
        forall|i: int|
            #![trigger uuids[i]]
            at.contains(i) <==> 0 <= i < uuids.len() && (first_item(items, uuids[i])
                matches Some(item) && !item.is_folder()),
        ({
            let taken = downloads(items, item_ref, output, bundle);
            let clash = exists|j: int, k: int|
                0 <= j < k < at.len() && download_name(
                    first_item(items, uuids[#[trigger] at[j]])->Some_0,
                    bundle,
                ) == download_name(first_item(items, uuids[#[trigger] at[k]])->Some_0, bundle);
            &&& at.len() == 0 ==> taken == Err::<Seq<ItemView>, ErrorView>(
                ErrorView::NotADocument(item_ref),
            )
            &&& at.len() == 1 ==> taken is Ok
            &&& at.len() > 1 ==> (output matches Some((path, is_dir)) ==> (!is_dir ==> taken == Err::<
                Seq<ItemView>,
                ErrorView,
            >(ErrorView::OutputNotADirectory(path))))
            &&& at.len() > 1 && !(output matches Some((_, is_dir)) && !is_dir) ==> (taken is Ok
                <==> !clash) && (taken matches Err(e) ==> e is NameConflict)
            &&& taken matches Ok(docs) ==> docs.len() == at.len() && forall|k: int|
                0 <= k < at.len() ==> Some(docs[k]) == first_item(items, uuids[#[trigger] at[k]])
        }),
{
    let docs = documents_of(items, uuids, uuids.len());
    let at = documents_are_positions(items, uuids, uuids.len());
    assert forall|i: int|
        #![trigger uuids[i]]
        at.contains(i) <==> 0 <= i < uuids.len() && (first_item(items, uuids[i])
            matches Some(item) && !item.is_folder()) by {
        if at.contains(i) {
            let k = choose|k: int| 0 <= k < at.len() && at[k] == i;
            assert(at[k] == i);
        }
    }
    if colliding(docs, docs.len(), bundle) is Some {
        let (j, k) = collisions_have_two_sides(docs, docs.len(), bundle);
        assert(at[j] < at[k]);
    } else {
        assert forall|j: int, k: int| 0 <= j < k < at.len() implies download_name(
            first_item(items, uuids[#[trigger] at[j]])->Some_0,
            bundle,
        ) != download_name(first_item(items, uuids[#[trigger] at[k]])->Some_0, bundle) by {
            if download_name(docs[j], bundle) == download_name(docs[k], bundle) {
                assert(is_taken(docs, k, bundle, download_name(docs[k], bundle)));
                if colliding(docs, (k + 1) as nat, bundle) is Some {
                    colliding_stops(docs, (k + 1) as nat, docs.len(), bundle);
                }
            }
        }
    }
    at
}

/// A single download takes the document that its reference means, and nothing else: a folder is
/// refused by the reference, and what leads nowhere stays an error.
pub proof fn only_documents_are_downloaded(items: Seq<ItemView>, item_ref: Seq<char>)
    ensures
        resolved(items, item_ref) matches Err(e) ==> document_meant(items, item_ref) == Err::<
            ItemView,
            ErrorView,
        >(e),
        resolved(items, item_ref) matches Ok(item) ==> (document_meant(items, item_ref) == Ok::<
            ItemView,
            ErrorView,
        >(item) <==> !item.is_folder()) && (item.is_folder() ==> document_meant(items, item_ref)
            == Err::<ItemView, ErrorView>(ErrorView::NotADocument(item_ref))),
{
}

} // verus!
