//! Folder sync between a local directory and the tablet's document tree: endpoints, file kinds,
//! snapshots of both sides, the sync state, and the actions of a plan.
use vstd::prelude::*;
use crate::pathmap::PathMap;
use crate::text::{
    cat, cat3, contains, find, find_in, find_last, find_last_in, find_last_is_last, from_chars,
    rsplit_once, rsplit_once_in, skip_chars, str_eq, take_chars, to_chars, Class,
};

verus! {

/// Name of the sync-state file kept in the local sync root.
pub const STATE_FILE_NAME: &'static str = ".rmu-sync.json";

/// A parsed sync endpoint argument (scp conventions).
#[derive(Debug, PartialEq, Eq)]
pub enum Endpoint {
    Local(String),
    /// `[user@]host:path`: `destination` goes to ssh verbatim; `path` is a logical device path.
    Remote { destination: String, path: String },
}

/// What an [`Endpoint`] holds.
pub enum EndpointView {
    Local(Seq<char>),
    Remote { destination: Seq<char>, path: Seq<char> },
}

impl DeepView for Endpoint {
    type V = EndpointView;

    open spec fn deep_view(&self) -> EndpointView {
        match *self {
            Endpoint::Local(path) => EndpointView::Local(path@),
            Endpoint::Remote { destination, path } => EndpointView::Remote {
                destination: destination@,
                path: path@,
            },
        }
    }
}

/// The endpoint that an argument means: remote if and only if a `:` follows a non-empty host
/// without slashes.
pub open spec fn endpoint_of(arg: Seq<char>) -> EndpointView {
    let colon = find(arg, Class::Only(':'));
    let host = arg.take(colon);
    if 0 < colon < arg.len() && !contains(host, Class::Only('/')) {
        EndpointView::Remote { destination: host, path: arg.skip(colon + 1) }
    } else {
        EndpointView::Local(arg)
    }
}

/// Parses an endpoint argument. It is remote if it contains a `:` before the first `/` (escape
/// colon-containing local paths with a `./` prefix).
pub fn parse_endpoint(arg: &str) -> (r: Endpoint)
    ensures
        r.deep_view() == endpoint_of(arg@),
{
    let chars = to_chars(arg);
    let colon = find_in(&chars, &Class::Only(':'));
    if colon > 0 && colon < chars.len() {
        let host = take_chars(&chars, colon);
        if !crate::text::contains_in(host, &Class::Only('/')) {
            let rest = skip_chars(&chars, colon + 1);
            return Endpoint::Remote { destination: from_chars(host), path: from_chars(rest) };
        }
    }
    Endpoint::Local(arg.to_owned())
}

/// Syncable file kinds, by local extension.
#[derive(Debug, Clone, Copy, PartialEq, Eq, Structural)]
pub enum DocKind {
    Pdf,
    Epub,
    Markdown,
    Text,
    Rmdoc,
}

/// The kind of a file with the given extension.
pub open spec fn kind_of_extension(ext: Seq<char>) -> Option<DocKind> {
    if ext == "pdf"@ {
        Some(DocKind::Pdf)
    } else if ext == "epub"@ {
        Some(DocKind::Epub)
    } else if ext == "md"@ || ext == "markdown"@ {
        Some(DocKind::Markdown)
    } else if ext == "txt"@ {
        Some(DocKind::Text)
    } else if ext == "rmdoc"@ {
        Some(DocKind::Rmdoc)
    } else {
        None
    }
}

impl DocKind {
    pub fn from_extension(ext: &str) -> (r: Option<DocKind>)
        ensures
            r == kind_of_extension(ext@),
    {
        if str_eq(ext, "pdf") {
            Some(DocKind::Pdf)
        } else if str_eq(ext, "epub") {
            Some(DocKind::Epub)
        } else if str_eq(ext, "md") || str_eq(ext, "markdown") {
            Some(DocKind::Markdown)
        } else if str_eq(ext, "txt") {
            Some(DocKind::Text)
        } else if str_eq(ext, "rmdoc") {
            Some(DocKind::Rmdoc)
        } else {
            None
        }
    }

    /// The payload file type that this kind has on the device.
    pub fn device_file_type(self) -> (r: &'static str)
        ensures
            r@ == match self {
                DocKind::Pdf => "pdf"@,
                DocKind::Epub | DocKind::Markdown | DocKind::Text => "epub"@,
                DocKind::Rmdoc => "notebook"@,
            },
    {
        match self {
            DocKind::Pdf => "pdf",
            DocKind::Epub | DocKind::Markdown | DocKind::Text => "epub",
            DocKind::Rmdoc => "notebook",
        }
    }
}

/// A syncable local file (directories are implicit in the paths).
#[derive(Debug)]
pub struct LocalEntry {
    /// Relative path with `/` separators, e.g. `Books/notes.md`.
    pub rel_path: String,
    pub kind: DocKind,
    pub size: u64,
    pub mtime_ms: i64,
}

/// What a [`LocalEntry`] holds.
pub struct LocalView {
    pub rel_path: Seq<char>,
    pub kind: DocKind,
    pub size: u64,
    pub mtime_ms: i64,
}

impl DeepView for LocalEntry {
    type V = LocalView;

    open spec fn deep_view(&self) -> LocalView {
        LocalView {
            rel_path: self.rel_path@,
            kind: self.kind,
            size: self.size,
            mtime_ms: self.mtime_ms,
        }
    }
}

/// Document types on the device side.
#[derive(Debug, Clone, Copy, PartialEq, Eq, Structural)]
pub enum RemoteType {
    Pdf,
    Epub,
    /// Native notebook (or missing `.content`); pulls as `.rmdoc`.
    Notebook,
}

/// Local file extension that a pull of the type produces.
pub open spec fn pulled_extension(t: RemoteType) -> Seq<char> {
    match t {
        RemoteType::Pdf => "pdf"@,
        RemoteType::Epub => "epub"@,
        RemoteType::Notebook => "rmdoc"@,
    }
}

/// Kind of the local file that a pull of the type produces.
pub open spec fn pulled_as(t: RemoteType) -> DocKind {
    match t {
        RemoteType::Pdf => DocKind::Pdf,
        RemoteType::Epub => DocKind::Epub,
        RemoteType::Notebook => DocKind::Rmdoc,
    }
}

impl RemoteType {
    /// Local file extension a pull produces.
    pub fn local_extension(self) -> (r: &'static str)
        ensures
            r@ == pulled_extension(self),
    {
        match self {
            RemoteType::Pdf => "pdf",
            RemoteType::Epub => "epub",
            RemoteType::Notebook => "rmdoc",
        }
    }

    /// Kind of the local file a pull produces.
    pub fn pulled_kind(self) -> (r: DocKind)
        ensures
            r == pulled_as(self),
    {
        match self {
            RemoteType::Pdf => DocKind::Pdf,
            RemoteType::Epub => DocKind::Epub,
            RemoteType::Notebook => DocKind::Rmdoc,
        }
    }
}

/// A name inside a directory given by its relative path.
pub open spec fn joined(dir: Seq<char>, name: Seq<char>) -> Seq<char> {
    if dir.len() == 0 {
        name
    } else {
        dir + "/"@ + name
    }
}

/// Joins a relative directory path and a name.
pub fn join_rel(dir: &str, name: &str) -> (r: String)
    ensures
        r@ == joined(dir@, name@),
{
    if dir.is_empty() {
        name.to_owned()
    } else {
        cat3(dir, "/", name)
    }
}

/// A document inside the synced device subtree.
#[derive(Debug)]
pub struct RemoteDoc {
    /// Directory path relative to the sync root (`""` = the root).
    pub rel_dir: String,
    /// Visible name (no extension).
    pub name: String,
    pub uuid: String,
    pub doc_type: RemoteType,
    pub last_modified: i64,
    pub size_bytes: Option<u64>,
}

/// What a [`RemoteDoc`] holds.
pub struct RemoteView {
    pub rel_dir: Seq<char>,
    pub name: Seq<char>,
    pub uuid: Seq<char>,
    pub doc_type: RemoteType,
    pub last_modified: i64,
    pub size_bytes: Option<u64>,
}

impl DeepView for RemoteDoc {
    type V = RemoteView;

    open spec fn deep_view(&self) -> RemoteView {
        RemoteView {
            rel_dir: self.rel_dir@,
            name: self.name@,
            uuid: self.uuid@,
            doc_type: self.doc_type,
            last_modified: self.last_modified,
            size_bytes: self.size_bytes,
        }
    }
}

impl RemoteView {
    /// Local relative path that a pull of the document produces.
    pub open spec fn local_path(self) -> Seq<char> {
        joined(self.rel_dir, self.name + "."@ + pulled_extension(self.doc_type))
    }
}

impl RemoteDoc {
    /// Local relative path a pull of this document produces.
    pub fn local_rel_path(&self) -> (r: String)
        ensures
            r@ == self.deep_view().local_path(),
    {
        let filename = cat3(self.name.as_str(), ".", self.doc_type.local_extension());
        join_rel(self.rel_dir.as_str(), filename.as_str())
    }
}

/// One planned operation. `Skip`/`Conflict` are informational.
#[derive(Debug, PartialEq)]
pub enum SyncAction {
    CreateRemoteFolder { rel_dir: String },
    Upload { local: String, kind: DocKind, remote_dir: String, name: String },
    UpdateRemote { local: String, kind: DocKind, uuid: String },
    Download {
        local: String,
        uuid: String,
        doc_type: RemoteType,
        size_bytes: Option<u64>,
        /// Remote modification time at planning, recorded into the state.
        last_modified: i64,
    },
    /// Only with deletion asked for, and only for mapped files.
    DeleteRemote { path: String, uuid: String },
    /// Only with deletion asked for, and only for mapped files.
    DeleteLocal { path: String },
    /// Drop a stale state mapping (e.g. both sides gone).
    Forget { path: String },
    /// A conflict the policy did not resolve; nothing is changed.
    Conflict { path: String, reason: String },
    Skip { path: String, reason: String },
}

/// What a [`SyncAction`] holds.
pub enum ActionView {
    CreateRemoteFolder { rel_dir: Seq<char> },
    Upload { local: Seq<char>, kind: DocKind, remote_dir: Seq<char>, name: Seq<char> },
    UpdateRemote { local: Seq<char>, kind: DocKind, uuid: Seq<char> },
    Download {
        local: Seq<char>,
        uuid: Seq<char>,
        doc_type: RemoteType,
        size_bytes: Option<u64>,
        last_modified: i64,
    },
    DeleteRemote { path: Seq<char>, uuid: Seq<char> },
    DeleteLocal { path: Seq<char> },
    Forget { path: Seq<char> },
    Conflict { path: Seq<char>, reason: Seq<char> },
    Skip { path: Seq<char>, reason: Seq<char> },
}

impl DeepView for SyncAction {
    type V = ActionView;

    open spec fn deep_view(&self) -> ActionView {
        match *self {
            SyncAction::CreateRemoteFolder { rel_dir } => ActionView::CreateRemoteFolder {
                rel_dir: rel_dir@,
            },
            SyncAction::Upload { local, kind, remote_dir, name } => ActionView::Upload {
                local: local@,
                kind,
                remote_dir: remote_dir@,
                name: name@,
            },
            SyncAction::UpdateRemote { local, kind, uuid } => ActionView::UpdateRemote {
                local: local@,
                kind,
                uuid: uuid@,
            },
            SyncAction::Download { local, uuid, doc_type, size_bytes, last_modified } =>
                ActionView::Download {
                local: local@,
                uuid: uuid@,
                doc_type,
                size_bytes,
                last_modified,
            },
            SyncAction::DeleteRemote { path, uuid } => ActionView::DeleteRemote {
                path: path@,
                uuid: uuid@,
            },
            SyncAction::DeleteLocal { path } => ActionView::DeleteLocal { path: path@ },
            SyncAction::Forget { path } => ActionView::Forget { path: path@ },
            SyncAction::Conflict { path, reason } => ActionView::Conflict {
                path: path@,
                reason: reason@,
            },
            SyncAction::Skip { path, reason } => ActionView::Skip { path: path@, reason: reason@ },
        }
    }
}

impl Clone for SyncAction {
    fn clone(&self) -> (r: Self)
        ensures
            r == *self,
    {
        match self {
            SyncAction::CreateRemoteFolder { rel_dir } => SyncAction::CreateRemoteFolder {
                rel_dir: rel_dir.clone(),
            },
            SyncAction::Upload { local, kind, remote_dir, name } => SyncAction::Upload {
                local: local.clone(),
                kind: *kind,
                remote_dir: remote_dir.clone(),
                name: name.clone(),
            },
            SyncAction::UpdateRemote { local, kind, uuid } => SyncAction::UpdateRemote {
                local: local.clone(),
                kind: *kind,
                uuid: uuid.clone(),
            },
            SyncAction::Download { local, uuid, doc_type, size_bytes, last_modified } =>
                SyncAction::Download {
                local: local.clone(),
                uuid: uuid.clone(),
                doc_type: *doc_type,
                size_bytes: *size_bytes,
                last_modified: *last_modified,
            },
            SyncAction::DeleteRemote { path, uuid } => SyncAction::DeleteRemote {
                path: path.clone(),
                uuid: uuid.clone(),
            },
            SyncAction::DeleteLocal { path } => SyncAction::DeleteLocal { path: path.clone() },
            SyncAction::Forget { path } => SyncAction::Forget { path: path.clone() },
            SyncAction::Conflict { path, reason } => SyncAction::Conflict {
                path: path.clone(),
                reason: reason.clone(),
            },
            SyncAction::Skip { path, reason } => SyncAction::Skip {
                path: path.clone(),
                reason: reason.clone(),
            },
        }
    }
}

/// The synced subtree of the device.
#[derive(Debug)]
pub struct RemoteSnapshot {
    pub docs: Vec<RemoteDoc>,
    /// Folder relative path to UUID; `""` maps to the sync root folder.
    pub folders: PathMap<String>,
    /// Items excluded up-front (duplicate names, unusable names, ...).
    pub skips: Vec<SyncAction>,
}

/// What a [`RemoteSnapshot`] holds.
pub struct SnapshotView {
    pub docs: Seq<RemoteView>,
    pub folders: Seq<(Seq<char>, Seq<char>)>,
    pub skips: Seq<ActionView>,
}

impl DeepView for RemoteSnapshot {
    type V = SnapshotView;

    open spec fn deep_view(&self) -> SnapshotView {
        SnapshotView {
            docs: self.docs.deep_view(),
            folders: self.folders.pairs(),
            skips: self.skips.deep_view(),
        }
    }
}

impl Default for RemoteSnapshot {
    fn default() -> (r: Self)
        ensures
            r.folders.wf(),
            r.deep_view() == (SnapshotView {
                docs: Seq::empty(),
                folders: Seq::empty(),
                skips: Seq::empty(),
            }),
    {
        let r = RemoteSnapshot { docs: Vec::new(), folders: PathMap::new(), skips: Vec::new() };
        assert(r.docs.deep_view() =~= Seq::empty());
        assert(r.skips.deep_view() =~= Seq::empty());
        r
    }
}

/// Last-synced knowledge for one mapped file.
#[derive(Debug)]
pub struct StateEntry {
    pub uuid: String,
    pub kind: DocKind,
    pub local_size: u64,
    pub local_mtime_ms: i64,
    pub remote_last_modified: i64,
}

/// What a [`StateEntry`] holds.
pub struct StateView {
    pub uuid: Seq<char>,
    pub kind: DocKind,
    pub local_size: u64,
    pub local_mtime_ms: i64,
    pub remote_last_modified: i64,
}

impl DeepView for StateEntry {
    type V = StateView;

    open spec fn deep_view(&self) -> StateView {
        StateView {
            uuid: self.uuid@,
            kind: self.kind,
            local_size: self.local_size,
            local_mtime_ms: self.local_mtime_ms,
            remote_last_modified: self.remote_last_modified,
        }
    }
}

/// The sync state: which local path belongs to which device UUID, and what both sides looked like
/// at the last sync. Enables three-way diffing.
#[derive(Debug)]
pub struct SyncState {
    pub version: u32,
    pub entries: PathMap<StateEntry>,
}

impl Default for SyncState {
    fn default() -> (r: Self)
        ensures
            r.version == 0,
            r.entries.wf(),
            r.entries.pairs() == Seq::<(Seq<char>, StateView)>::empty(),
    {
        SyncState { version: 0, entries: PathMap::new() }
    }
}

impl SyncState {
    /// The state where no state file exists yet.
    pub fn fresh() -> (r: Self)
        ensures
            r.version == 1,
            r.entries.wf(),
            r.entries.pairs() == Seq::<(Seq<char>, StateView)>::empty(),
    {
        SyncState { version: 1, entries: PathMap::new() }
    }
}

/// Sync mode. In one-way modes the destination is never treated as a source of changes; two-way
/// propagates changes in both directions.
#[derive(Debug, Clone, Copy, PartialEq, Eq, Structural)]
pub enum Mode {
    /// Local to device.
    Push,
    /// Device to local.
    Pull,
    /// Bidirectional.
    TwoWay,
}

/// What to do when both sides of a mapped file changed (or when unmapped files collide).
#[derive(Debug, Clone, Copy, PartialEq, Eq, Structural)]
pub enum ConflictPolicy {
    /// Report and touch nothing (default; loses nothing).
    Skip,
    /// The side with the newer timestamp wins; ties go to local.
    Newest,
    PreferLocal,
    PreferRemote,
}

impl Default for ConflictPolicy {
    fn default() -> (r: Self)
        ensures
            r == ConflictPolicy::Skip,
    {
        ConflictPolicy::Skip
    }
}

#[derive(Debug, Clone, Copy)]
pub struct SyncOptions {
    pub mode: Mode,
    /// Propagate deletions of mapped files (never-synced files are never deleted).
    pub delete: bool,
    pub conflict: ConflictPolicy,
}

/// The actions that bring both sides together, in the order to apply them.
#[derive(Debug)]
pub struct Plan {
    pub actions: Vec<SyncAction>,
}

/// Whether an action changes something.
pub open spec fn is_change(action: ActionView) -> bool {
    !(action is Skip) && !(action is Conflict)
}

/// How many of the first `n` actions change something.
pub open spec fn change_count(actions: Seq<ActionView>, n: nat) -> nat
    decreases n,
{
    if n == 0 {
        0
    } else {
        change_count(actions, (n - 1) as nat) + (if is_change(actions[n - 1]) {
            1nat
        } else {
            0nat
        })
    }
}

impl SyncAction {
    /// Whether the action changes something.
    pub fn changes_something(&self) -> (r: bool)
        ensures
            r == is_change(self.deep_view()),
    {
        match self {
            SyncAction::Skip { .. } | SyncAction::Conflict { .. } => false,
            _ => true,
        }
    }
}

impl Plan {
    /// Number of actions that would change something.
    pub fn changes(&self) -> (n: usize)
        ensures
            n == change_count(self.actions.deep_view(), self.actions.len() as nat),
    {
        let ghost views = self.actions.deep_view();
        let mut n: usize = 0;
        let mut i: usize = 0;
        while i < self.actions.len()
            invariant
                i <= self.actions.len(),
                views == self.actions.deep_view(),
                n == change_count(views, i as nat),
                n <= i,
            decreases self.actions.len() - i,
        {
            assert(views[i as int] == self.actions[i as int].deep_view());
            if self.actions[i].changes_something() {
                n += 1;
            }
            i += 1;
        }
        n
    }
}

/// Position of the dot that separates the extension of a file name, or -1. A leading dot does not
/// count, and `..` has no extension.
pub open spec fn extension_dot(filename: Seq<char>) -> int {
    let dot = find_last(filename, Class::Only('.'));
    if dot <= 0 || filename == seq!['.', '.'] {
        -1
    } else {
        dot
    }
}

/// A file name without its extension.
pub open spec fn stem_of(filename: Seq<char>) -> Seq<char> {
    if extension_dot(filename) < 0 {
        filename
    } else {
        filename.take(extension_dot(filename))
    }
}

/// The extension of a file name.
pub open spec fn extension_of(filename: Seq<char>) -> Option<Seq<char>> {
    if extension_dot(filename) < 0 {
        None
    } else {
        Some(filename.skip(extension_dot(filename) + 1))
    }
}

/// Position of the dot that separates the extension of a file name.
pub fn find_extension_dot(filename: &[char]) -> (r: Option<usize>)
    ensures
        match r {
            Some(dot) => extension_dot(filename@) == dot && dot < filename.len(),
            None => extension_dot(filename@) < 0,
        },
{
    proof {
        find_last_is_last(filename@, Class::Only('.'));
        assert((filename.len() == 2 && filename@[0] == '.' && filename@[1] == '.') == (filename@
            =~= seq!['.', '.']));
    }
    match find_last_in(filename, &Class::Only('.')) {
        Some(dot) => {
            if dot == 0 || (filename.len() == 2 && filename[0] == '.' && filename[1] == '.') {
                None
            } else {
                Some(dot)
            }
        },
        None => None,
    }
}

/// The directory of a relative path, and the name in it.
pub open spec fn split_dir(path: Seq<char>) -> (Seq<char>, Seq<char>) {
    match rsplit_once(path, Class::Only('/')) {
        Some((dir, name)) => (dir, name),
        None => (Seq::empty(), path),
    }
}

/// The device directory and the device name of a local file.
pub open spec fn target_of(rel_path: Seq<char>) -> (Seq<char>, Seq<char>) {
    (split_dir(rel_path).0, stem_of(split_dir(rel_path).1))
}

/// Splits a relative path into its directory and the name in it.
pub fn split_path(path: &str) -> (r: (String, String))
    ensures
        (r.0@, r.1@) == split_dir(path@),
{
    let chars = to_chars(path);
    match rsplit_once_in(&chars, &Class::Only('/')) {
        Some((dir, name)) => (from_chars(dir), from_chars(name)),
        None => {
            let empty = String::new();
            assert(empty@ =~= Seq::empty());
            (empty, path.to_owned())
        },
    }
}

/// Splits a relative file path into the directory and the name without extension.
pub fn split_target(rel_path: &str) -> (r: (String, String))
    ensures
        (r.0@, r.1@) == target_of(rel_path@),
{
    let (dir, filename) = split_path(rel_path);
    let chars = to_chars(filename.as_str());
    match find_extension_dot(&chars) {
        Some(dot) => (dir, from_chars(take_chars(&chars, dot))),
        None => (dir, filename),
    }
}

/// The prefixes of a path that end before one of its first `n` slashes-or-characters: every
/// position `i < n` that holds a slash gives the path before it.
pub open spec fn prefixes_before(path: Seq<char>, n: nat) -> Seq<Seq<char>>
    decreases n,
{
    if n == 0 {
        Seq::empty()
    } else {
        let before = prefixes_before(path, (n - 1) as nat);
        if path[n - 1] == '/' {
            before.push(path.take(n - 1))
        } else {
            before
        }
    }
}

/// All prefixes of a relative directory path that are directories, the path itself last.
pub open spec fn prefixes(path: Seq<char>) -> Seq<Seq<char>> {
    if path.len() == 0 {
        Seq::empty()
    } else {
        prefixes_before(path, path.len()).push(path)
    }
}

/// All non-empty prefixes of a relative directory path: `a/b/c` gives `a`, `a/b`, `a/b/c`.
pub fn path_prefixes(path: &str) -> (out: Vec<String>)
    ensures
        out.deep_view() == prefixes(path@),
{
    let chars = to_chars(path);
    let mut out: Vec<String> = Vec::new();
    if chars.len() == 0 {
        assert(out.deep_view() =~= Seq::empty());
        return out;
    }
    let mut i: usize = 0;
    assert(out.deep_view() =~= prefixes_before(path@, 0));
    while i < chars.len()
        invariant
            i <= chars.len(),
            chars@ == path@,
            out.deep_view() == prefixes_before(path@, i as nat),
        decreases chars.len() - i,
    {
        let ghost before = out.deep_view();
        if chars[i] == '/' {
            out.push(from_chars(take_chars(&chars, i)));
            assert(out.deep_view() =~= before.push(path@.take(i as int)));
        }
        i += 1;
    }
    let ghost before = out.deep_view();
    out.push(path.to_owned());
    assert(out.deep_view() =~= before.push(path@));
    out
}

/// One-line description of an action.
pub open spec fn description(action: ActionView) -> Seq<char> {
    match action {
        ActionView::CreateRemoteFolder { rel_dir } => "mkdir    "@ + rel_dir + "/"@,
        ActionView::Upload { local, kind, .. } => match kind {
            DocKind::Markdown | DocKind::Text => "upload   "@ + local + " (as EPUB)"@,
            DocKind::Rmdoc => "restore  "@ + local,
            DocKind::Pdf | DocKind::Epub => "upload   "@ + local,
        },
        ActionView::UpdateRemote { local, .. } => "update   "@ + local,
        ActionView::Download { local, doc_type, .. } => match doc_type {
            RemoteType::Notebook => "download "@ + local + " (notebook bundle)"@,
            RemoteType::Pdf | RemoteType::Epub => "download "@ + local,
        },
        ActionView::DeleteRemote { path, .. } => "delete   "@ + path + " (on device)"@,
        ActionView::DeleteLocal { path } => "delete   "@ + path + " (local)"@,
        ActionView::Forget { path } => "forget   "@ + path + " (stale sync mapping)"@,
        ActionView::Conflict { path, reason } => "conflict "@ + path + " ("@ + reason + ")"@,
        ActionView::Skip { path, reason } => "skip     "@ + path + " ("@ + reason + ")"@,
    }
}

/// Human-readable one-line description of an action (used for progress and dry runs).
pub fn describe(action: &SyncAction) -> (r: String)
    ensures
        r@ == description(action.deep_view()),
{
    match action {
        SyncAction::CreateRemoteFolder { rel_dir } => cat3("mkdir    ", rel_dir.as_str(), "/"),
        SyncAction::Upload { local, kind, .. } => match kind {
            DocKind::Markdown | DocKind::Text => cat3("upload   ", local.as_str(), " (as EPUB)"),
            DocKind::Rmdoc => cat("restore  ", local.as_str()),
            DocKind::Pdf | DocKind::Epub => cat("upload   ", local.as_str()),
        },
        SyncAction::UpdateRemote { local, .. } => cat("update   ", local.as_str()),
        SyncAction::Download { local, doc_type, .. } => match doc_type {
            RemoteType::Notebook => cat3("download ", local.as_str(), " (notebook bundle)"),
            RemoteType::Pdf | RemoteType::Epub => cat("download ", local.as_str()),
        },
        SyncAction::DeleteRemote { path, .. } => cat3("delete   ", path.as_str(), " (on device)"),
        SyncAction::DeleteLocal { path } => cat3("delete   ", path.as_str(), " (local)"),
        SyncAction::Forget { path } => cat3("forget   ", path.as_str(), " (stale sync mapping)"),
        SyncAction::Conflict { path, reason } => crate::text::cat5(
            "conflict ",
            path.as_str(),
            " (",
            reason.as_str(),
            ")",
        ),
        SyncAction::Skip { path, reason } => crate::text::cat5(
            "skip     ",
            path.as_str(),
            " (",
            reason.as_str(),
            ")",
        ),
    }
}

} // verus!
