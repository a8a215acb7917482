//! The sync planner: a three-way diff of local files, device documents and the sync state.
use vstd::prelude::*;
use crate::pathmap::{keys, value_of};
use crate::sync::{
    path_prefixes, prefixes, split_dir, split_path, split_target, target_of, ActionView,
    ConflictPolicy, DocKind, LocalEntry, LocalView, Mode, Plan, RemoteDoc, RemoteSnapshot,
    RemoteType, RemoteView, SnapshotView, StateEntry, StateView, SyncAction, SyncOptions,
    SyncState,
};
use crate::text::{insert_text_in, sort_dedup, str_eq};

verus! {

/// Why an item is skipped or in conflict.
#[derive(Debug, Clone, Copy, PartialEq, Eq, Structural)]
pub enum Note {
    PullOnly,
    TextImport,
    DestinationChanged,
    BothChanged,
    TextImportLost,
    DeletedOnDevice,
    KeptLocal,
    DeletedLocally,
    KeptOnDevice,
    OnBothSides,
    CannotOverwrite,
    NameTaken,
    NameShared,
    AlreadyTracked,
}

impl Note {
    /// The reason in words.
    pub open spec fn text(self) -> Seq<char> {
        match self {
            Note::PullOnly => "mapped .rmdoc files are pull-only (the tablet's ink wins)"@,
            Note::TextImport => "text import; device-side changes are not pulled"@,
            Note::DestinationChanged => "destination changed since last sync"@,
            Note::BothChanged => "both sides changed since last sync"@,
            Note::TextImportLost =>
                "resolved to the device side, but device-side changes cannot be pulled into a text import"@,
            Note::DeletedOnDevice => "deleted on the device but changed locally"@,
            Note::KeptLocal => "kept local copy of a document deleted on the device"@,
            Note::DeletedLocally => "deleted locally but changed on the device"@,
            Note::KeptOnDevice => "kept device copy of a locally deleted document"@,
            Note::OnBothSides => "exists on both sides (no sync state to match them)"@,
            Note::CannotOverwrite =>
                "cannot overwrite the device copy (handwriting or mismatched types)"@,
            Note::NameTaken =>
                "an item with this name already exists on the device (no sync state to match it)"@,
            Note::NameShared => "multiple local files map to the same device name"@,
            Note::AlreadyTracked => "target path is already tracked by another document"@,
        }
    }

    /// The reason in words.
    pub fn as_str(self) -> (r: &'static str)
        ensures
            r@ == self.text(),
    {
        match self {
            Note::PullOnly => "mapped .rmdoc files are pull-only (the tablet's ink wins)",
            Note::TextImport => "text import; device-side changes are not pulled",
            Note::DestinationChanged => "destination changed since last sync",
            Note::BothChanged => "both sides changed since last sync",
            Note::TextImportLost =>
                "resolved to the device side, but device-side changes cannot be pulled into a text import",
            Note::DeletedOnDevice => "deleted on the device but changed locally",
            Note::KeptLocal => "kept local copy of a document deleted on the device",
            Note::DeletedLocally => "deleted locally but changed on the device",
            Note::KeptOnDevice => "kept device copy of a locally deleted document",
            Note::OnBothSides => "exists on both sides (no sync state to match them)",
            Note::CannotOverwrite =>
                "cannot overwrite the device copy (handwriting or mismatched types)",
            Note::NameTaken =>
                "an item with this name already exists on the device (no sync state to match it)",
            Note::NameShared => "multiple local files map to the same device name",
            Note::AlreadyTracked => "target path is already tracked by another document",
        }
    }
}

/// What is decided for one path.
#[derive(Debug, Clone, Copy, PartialEq, Eq, Structural)]
pub enum Decision {
    Nothing,
    /// Copy the local file to the device as a new document, if its name is free there.
    Upload,
    /// Overwrite the device document with the local file.
    Update,
    /// Copy the device document over the local file.
    Download,
    DeleteRemote,
    DeleteLocal,
    /// Drop the mapping.
    Forget,
    /// Drop the mapping and say why.
    Release(Note),
    Conflict(Note),
    Skip(Note),
}

/// Which side a conflict resolved to.
#[derive(Debug, Clone, Copy, PartialEq, Eq, Structural)]
pub enum Winner {
    Local,
    Remote,
}

/// The side that a policy lets win, given the times of both versions.
pub open spec fn winning(policy: ConflictPolicy, local_ms: i64, remote_ms: i64) -> Option<Winner> {
    match policy {
        ConflictPolicy::Skip => None,
        ConflictPolicy::PreferLocal => Some(Winner::Local),
        ConflictPolicy::PreferRemote => Some(Winner::Remote),
        ConflictPolicy::Newest => if local_ms >= remote_ms {
            Some(Winner::Local)
        } else {
            Some(Winner::Remote)
        },
    }
}

/// Resolves a conflict between a local version (`local_ms`) and a remote version (`remote_ms`).
/// Deleted sides pass `i64::MIN`, so that `Newest` lets the surviving change win.
pub fn winner(policy: ConflictPolicy, local_ms: i64, remote_ms: i64) -> (r: Option<Winner>)
    ensures
        r == winning(policy, local_ms, remote_ms),
{
    match policy {
        ConflictPolicy::Skip => None,
        ConflictPolicy::PreferLocal => Some(Winner::Local),
        ConflictPolicy::PreferRemote => Some(Winner::Remote),
        ConflictPolicy::Newest => if local_ms >= remote_ms {
            Some(Winner::Local)
        } else {
            Some(Winner::Remote)
        },
    }
}

/// Whether a mode may change the device.
pub open spec fn writes_remote(mode: Mode) -> bool {
    mode != Mode::Pull
}

/// Whether a mode may change local files.
pub open spec fn writes_local(mode: Mode) -> bool {
    mode != Mode::Push
}

fn can_write_remote(mode: Mode) -> (r: bool)
    ensures
        r == writes_remote(mode),
{
    mode != Mode::Pull
}

fn can_write_local(mode: Mode) -> (r: bool)
    ensures
        r == writes_local(mode),
{
    mode != Mode::Push
}

/// Whether the local file differs from what was last synced.
pub open spec fn local_changed(st: StateView, entry: LocalView) -> bool {
    entry.size != st.local_size || entry.mtime_ms != st.local_mtime_ms
}

/// Whether the device document differs from what was last synced.
pub open spec fn remote_changed(st: StateView, doc: RemoteView) -> bool {
    doc.last_modified != st.remote_last_modified
}

/// Whether the mapped file is a text that the device holds as an EPUB.
pub open spec fn is_text_import(st: StateView) -> bool {
    st.kind == DocKind::Markdown || st.kind == DocKind::Text
}

/// The local version goes to the device.
pub open spec fn push_over(options: SyncOptions, st: StateView) -> Decision {
    if !writes_remote(options.mode) {
        Decision::Nothing
    } else if st.kind == DocKind::Rmdoc {
        Decision::Skip(Note::PullOnly)
    } else {
        Decision::Update
    }
}

/// The device version comes to the local side; `note` says what becomes of a text import.
pub open spec fn pull_over(options: SyncOptions, st: StateView, note: Decision) -> Decision {
    if !writes_local(options.mode) {
        Decision::Nothing
    } else if is_text_import(st) {
        note
    } else {
        Decision::Download
    }
}

/// Mapped, present on both sides.
pub open spec fn for_both(
    options: SyncOptions,
    st: StateView,
    entry: LocalView,
    doc: RemoteView,
) -> Decision {
    let won = winning(options.conflict, entry.mtime_ms, doc.last_modified);
    if !local_changed(st, entry) && !remote_changed(st, doc) {
        Decision::Nothing
    } else if !remote_changed(st, doc) {
        if writes_remote(options.mode) {
            push_over(options, st)
        } else if is_text_import(st) {
            Decision::Nothing
        } else {
            match won {
                None => Decision::Conflict(Note::DestinationChanged),
                Some(Winner::Remote) => Decision::Download,
                Some(Winner::Local) => Decision::Nothing,
            }
        }
    } else if !local_changed(st, entry) {
        pull_over(options, st, Decision::Skip(Note::TextImport))
    } else {
        match won {
            None => Decision::Conflict(Note::BothChanged),
            Some(Winner::Local) => push_over(options, st),
            Some(Winner::Remote) => pull_over(
                options,
                st,
                Decision::Conflict(Note::TextImportLost),
            ),
        }
    }
}

/// Mapped, but the device copy vanished.
pub open spec fn for_remote_gone(
    options: SyncOptions,
    st: StateView,
    entry: LocalView,
) -> Decision {
    if options.mode == Mode::Push || (options.mode == Mode::TwoWay && !options.delete) {
        Decision::Upload
    } else if !options.delete {
        Decision::Nothing
    } else if !local_changed(st, entry) {
        Decision::DeleteLocal
    } else {
        match winning(options.conflict, entry.mtime_ms, i64::MIN) {
            None => Decision::Conflict(Note::DeletedOnDevice),
            Some(Winner::Remote) => Decision::DeleteLocal,
            Some(Winner::Local) => if options.mode == Mode::Pull {
                Decision::Release(Note::KeptLocal)
            } else {
                Decision::Upload
            },
        }
    }
}

/// Mapped, but the local copy vanished.
pub open spec fn for_local_gone(options: SyncOptions, st: StateView, doc: RemoteView) -> Decision {
    if options.mode == Mode::Pull || (options.mode == Mode::TwoWay && !options.delete) {
        Decision::Download
    } else if !options.delete {
        Decision::Nothing
    } else if !remote_changed(st, doc) {
        Decision::DeleteRemote
    } else {
        match winning(options.conflict, i64::MIN, doc.last_modified) {
            None => Decision::Conflict(Note::DeletedLocally),
            Some(Winner::Local) => Decision::DeleteRemote,
            Some(Winner::Remote) => if options.mode == Mode::Push {
                Decision::Release(Note::KeptOnDevice)
            } else {
                Decision::Download
            },
        }
    }
}

/// Unmapped, present on both sides under one path.
pub open spec fn for_collision(
    options: SyncOptions,
    entry: LocalView,
    doc: RemoteView,
) -> Decision {
    match winning(options.conflict, entry.mtime_ms, doc.last_modified) {
        None => Decision::Conflict(Note::OnBothSides),
        Some(Winner::Local) => if !writes_remote(options.mode) {
            Decision::Nothing
        } else if (entry.kind == DocKind::Pdf && doc.doc_type == RemoteType::Pdf) || (entry.kind
            == DocKind::Epub && doc.doc_type == RemoteType::Epub) {
            Decision::Update
        } else {
            Decision::Conflict(Note::CannotOverwrite)
        },
        Some(Winner::Remote) => if writes_local(options.mode) {
            Decision::Download
        } else {
            Decision::Nothing
        },
    }
}

/// The decision table: what is known of one path, and the options.
pub open spec fn decision(
    options: SyncOptions,
    st: Option<StateView>,
    entry: Option<LocalView>,
    doc: Option<RemoteView>,
) -> Decision {
    match (st, entry, doc) {
        (Some(st), Some(entry), Some(doc)) => for_both(options, st, entry, doc),
        (Some(st), Some(entry), None) => for_remote_gone(options, st, entry),
        (Some(st), None, Some(doc)) => for_local_gone(options, st, doc),
        (Some(_), None, None) => Decision::Forget,
        (None, Some(_), None) => if writes_remote(options.mode) {
            Decision::Upload
        } else {
            Decision::Nothing
        },
        (None, None, Some(_)) => if writes_local(options.mode) {
            Decision::Download
        } else {
            Decision::Nothing
        },
        (None, Some(entry), Some(doc)) => for_collision(options, entry, doc),
        (None, None, None) => Decision::Nothing,
    }
}

fn push_change(options: SyncOptions, st: &StateEntry) -> (r: Decision)
    ensures
        r == push_over(options, st.deep_view()),
{
    if !can_write_remote(options.mode) {
        Decision::Nothing
    } else if st.kind == DocKind::Rmdoc {
        Decision::Skip(Note::PullOnly)
    } else {
        Decision::Update
    }
}

fn pull_change(options: SyncOptions, st: &StateEntry, note: Decision) -> (r: Decision)
    ensures
        r == pull_over(options, st.deep_view(), note),
{
    if !can_write_local(options.mode) {
        Decision::Nothing
    } else if st.kind == DocKind::Markdown || st.kind == DocKind::Text {
        note
    } else {
        Decision::Download
    }
}

/// Mapped, present on both sides: the core three-way diff.
fn mapped_both(options: SyncOptions, st: &StateEntry, entry: &LocalEntry, doc: &RemoteDoc) -> (r:
    Decision)
    ensures
        r == for_both(options, st.deep_view(), entry.deep_view(), doc.deep_view()),
{
    let here = entry.size != st.local_size || entry.mtime_ms != st.local_mtime_ms;
    let there = doc.last_modified != st.remote_last_modified;
    match (here, there) {
        (false, false) => Decision::Nothing,
        (true, false) => {
            if can_write_remote(options.mode) {
                push_change(options, st)
            } else if st.kind == DocKind::Markdown || st.kind == DocKind::Text {
                // Text imports are expected to change locally; pushing is their flow.
                Decision::Nothing
            } else {
                match winner(options.conflict, entry.mtime_ms, doc.last_modified) {
                    None => Decision::Conflict(Note::DestinationChanged),
                    Some(Winner::Remote) => Decision::Download,
                    Some(Winner::Local) => Decision::Nothing,
                }
            }
        },
        // Pushing ignores device-side changes: they come about for benign reasons (annotations).
        (false, true) => pull_change(options, st, Decision::Skip(Note::TextImport)),
        (true, true) => match winner(options.conflict, entry.mtime_ms, doc.last_modified) {
            None => Decision::Conflict(Note::BothChanged),
            Some(Winner::Local) => push_change(options, st),
            Some(Winner::Remote) => pull_change(
                options,
                st,
                Decision::Conflict(Note::TextImportLost),
            ),
        },
    }
}

/// Mapped, but the device copy vanished.
fn mapped_remote_gone(options: SyncOptions, st: &StateEntry, entry: &LocalEntry) -> (r: Decision)
    ensures
        r == for_remote_gone(options, st.deep_view(), entry.deep_view()),
{
    let here = entry.size != st.local_size || entry.mtime_ms != st.local_mtime_ms;
    match options.mode {
        // Deleting the source is never propagated by a one-way sync; recopy.
        Mode::Push => Decision::Upload,
        Mode::Pull => {
            if !options.delete {
                Decision::Nothing
            } else if !here {
                Decision::DeleteLocal
            } else {
                match winner(options.conflict, entry.mtime_ms, i64::MIN) {
                    None => Decision::Conflict(Note::DeletedOnDevice),
                    Some(Winner::Local) => Decision::Release(Note::KeptLocal),
                    Some(Winner::Remote) => Decision::DeleteLocal,
                }
            }
        },
        Mode::TwoWay => {
            if !options.delete {
                Decision::Upload
            } else if !here {
                Decision::DeleteLocal
            } else {
                match winner(options.conflict, entry.mtime_ms, i64::MIN) {
                    None => Decision::Conflict(Note::DeletedOnDevice),
                    Some(Winner::Local) => Decision::Upload,
                    Some(Winner::Remote) => Decision::DeleteLocal,
                }
            }
        },
    }
}

/// Mapped, but the local copy vanished.
fn mapped_local_gone(options: SyncOptions, st: &StateEntry, doc: &RemoteDoc) -> (r: Decision)
    ensures
        r == for_local_gone(options, st.deep_view(), doc.deep_view()),
{
    let there = doc.last_modified != st.remote_last_modified;
    match options.mode {
        // The source still has it: recopy.
        Mode::Pull => Decision::Download,
        Mode::Push => {
            if !options.delete {
                Decision::Nothing
            } else if !there {
                Decision::DeleteRemote
            } else {
                match winner(options.conflict, i64::MIN, doc.last_modified) {
                    None => Decision::Conflict(Note::DeletedLocally),
                    Some(Winner::Remote) => Decision::Release(Note::KeptOnDevice),
                    Some(Winner::Local) => Decision::DeleteRemote,
                }
            }
        },
        Mode::TwoWay => {
            if !options.delete {
                Decision::Download
            } else if !there {
                Decision::DeleteRemote
            } else {
                match winner(options.conflict, i64::MIN, doc.last_modified) {
                    None => Decision::Conflict(Note::DeletedLocally),
                    Some(Winner::Remote) => Decision::Download,
                    Some(Winner::Local) => Decision::DeleteRemote,
                }
            }
        },
    }
}

/// Unmapped files at the same path on both sides. Policies may adopt the pairing; `Skip` reports
/// it.
fn collision(options: SyncOptions, entry: &LocalEntry, doc: &RemoteDoc) -> (r: Decision)
    ensures
        r == for_collision(options, entry.deep_view(), doc.deep_view()),
{
    match winner(options.conflict, entry.mtime_ms, doc.last_modified) {
        None => Decision::Conflict(Note::OnBothSides),
        Some(Winner::Local) => {
            if !can_write_remote(options.mode) {
                return Decision::Nothing;
            }
            match (entry.kind, doc.doc_type) {
                (DocKind::Pdf, RemoteType::Pdf) | (DocKind::Epub, RemoteType::Epub) =>
                    Decision::Update,
                _ => Decision::Conflict(Note::CannotOverwrite),
            }
        },
        Some(Winner::Remote) => {
            if can_write_local(options.mode) {
                Decision::Download
            } else {
                Decision::Nothing
            }
        },
    }
}

/// The decision for one path: three-way presence, mode and options.
pub fn decide(
    options: SyncOptions,
    st: Option<&StateEntry>,
    entry: Option<&LocalEntry>,
    doc: Option<&RemoteDoc>,
) -> (r: Decision)
    ensures
        r == decision(options, st.deep_view(), entry.deep_view(), doc.deep_view()),
{
    match (st, entry, doc) {
        (Some(st), Some(entry), Some(doc)) => mapped_both(options, st, entry, doc),
        (Some(st), Some(entry), None) => mapped_remote_gone(options, st, entry),
        (Some(st), None, Some(doc)) => mapped_local_gone(options, st, doc),
        // Both sides gone: the mapping is stale.
        (Some(_), None, None) => Decision::Forget,
        (None, Some(_), None) => if can_write_remote(options.mode) {
            Decision::Upload
        } else {
            Decision::Nothing
        },
        (None, None, Some(_)) => if can_write_local(options.mode) {
            Decision::Download
        } else {
            Decision::Nothing
        },
        (None, Some(entry), Some(doc)) => collision(options, entry, doc),
        (None, None, None) => Decision::Nothing,
    }
}

/// Whether some mapping names the UUID.
pub open spec fn is_mapped(state: Seq<(Seq<char>, StateView)>, uuid: Seq<char>) -> bool {
    exists|i: int| 0 <= i < state.len() && (#[trigger] state[i]).1.uuid == uuid
}

/// The local paths of the first `n` documents that no mapping names.
pub open spec fn loose_paths(
    docs: Seq<RemoteView>,
    n: nat,
    state: Seq<(Seq<char>, StateView)>,
) -> Seq<Seq<char>>
    decreases n,
{
    if n == 0 {
        Seq::empty()
    } else {
        let before = loose_paths(docs, (n - 1) as nat, state);
        if is_mapped(state, docs[n - 1].uuid) {
            before
        } else {
            before.push(docs[n - 1].local_path())
        }
    }
}

/// The paths of the local files.
pub open spec fn local_paths(local: Seq<LocalView>) -> Seq<Seq<char>> {
    Seq::new(local.len(), |i: int| local[i].rel_path)
}

/// The paths that a plan is about, each once, in ascending order: mapped paths, local files, and
/// the local paths of unmapped documents.
pub open spec fn plan_keys(
    local: Seq<LocalView>,
    docs: Seq<RemoteView>,
    state: Seq<(Seq<char>, StateView)>,
) -> Seq<Seq<char>> {
    sort_dedup(keys(state) + local_paths(local) + loose_paths(docs, docs.len(), state))
}

/// The local file at a path; of several, the last.
pub open spec fn local_at(local: Seq<LocalView>, key: Seq<char>) -> Option<LocalView>
    decreases local.len(),
{
    if local.len() == 0 {
        None
    } else if local.last().rel_path == key {
        Some(local.last())
    } else {
        local_at(local.drop_last(), key)
    }
}

/// The document with a UUID; of several, the last.
pub open spec fn doc_with(docs: Seq<RemoteView>, uuid: Seq<char>) -> Option<RemoteView>
    decreases docs.len(),
{
    if docs.len() == 0 {
        None
    } else if docs.last().uuid == uuid {
        Some(docs.last())
    } else {
        doc_with(docs.drop_last(), uuid)
    }
}

/// The first unmapped document from position `i` on that a pull would write to the path.
pub open spec fn loose_doc(
    docs: Seq<RemoteView>,
    i: int,
    state: Seq<(Seq<char>, StateView)>,
    key: Seq<char>,
) -> Option<RemoteView>
    decreases docs.len() - i,
{
    if i < 0 || i >= docs.len() {
        None
    } else if !is_mapped(state, docs[i].uuid) && docs[i].local_path() == key {
        Some(docs[i])
    } else {
        loose_doc(docs, i + 1, state, key)
    }
}

/// All that is known of one path.
pub struct RowView {
    pub key: Seq<char>,
    pub st: Option<StateView>,
    pub entry: Option<LocalView>,
    pub doc: Option<RemoteView>,
}

/// All that is known of a path: its mapping, the local file, and the mapped document or, without a
/// mapping, the first unmapped document of that path.
pub open spec fn row_of(
    local: Seq<LocalView>,
    docs: Seq<RemoteView>,
    state: Seq<(Seq<char>, StateView)>,
    key: Seq<char>,
) -> RowView {
    RowView {
        key,
        st: value_of(state, key),
        entry: local_at(local, key),
        doc: match value_of(state, key) {
            Some(st) => doc_with(docs, st.uuid),
            None => loose_doc(docs, 0, state, key),
        },
    }
}

/// The rows of a plan, in ascending order of their paths.
pub open spec fn plan_rows(
    local: Seq<LocalView>,
    docs: Seq<RemoteView>,
    state: Seq<(Seq<char>, StateView)>,
) -> Seq<RowView> {
    let ks = plan_keys(local, docs, state);
    Seq::new(ks.len(), |i: int| row_of(local, docs, state, ks[i]))
}

/// Whether a document before position `n` is unmapped and has the given local path.
pub open spec fn has_loose(
    docs: Seq<RemoteView>,
    n: nat,
    state: Seq<(Seq<char>, StateView)>,
    key: Seq<char>,
) -> bool {
    exists|j: int|
        0 <= j < n && !is_mapped(state, (#[trigger] docs[j]).uuid) && docs[j].local_path() == key
}

/// Notes on those of the first `n` documents that are unmapped but whose path is taken: mapped to
/// another document, or that of an earlier unmapped one.
pub open spec fn tracked_notes(
    docs: Seq<RemoteView>,
    n: nat,
    state: Seq<(Seq<char>, StateView)>,
) -> Seq<ActionView>
    decreases n,
{
    if n == 0 {
        Seq::empty()
    } else {
        let before = tracked_notes(docs, (n - 1) as nat, state);
        let path = docs[n - 1].local_path();
        if !is_mapped(state, docs[n - 1].uuid) && (value_of(state, path) is Some || has_loose(
            docs,
            (n - 1) as nat,
            state,
            path,
        )) {
            before.push(ActionView::Skip { path, reason: Note::AlreadyTracked.text() })
        } else {
            before
        }
    }
}

/// Whether a device directory already holds an item of the given name.
pub open spec fn is_taken(remote: SnapshotView, target: (Seq<char>, Seq<char>)) -> bool {
    ||| exists|i: int|
        0 <= i < remote.docs.len() && (#[trigger] remote.docs[i]).rel_dir == target.0
            && remote.docs[i].name == target.1
    ||| exists|i: int|
        0 <= i < remote.folders.len() && (#[trigger] remote.folders[i]).0.len() > 0 && split_dir(
            remote.folders[i].0,
        ) == target
}

/// Whether a row has a local file and no document.
pub open spec fn is_candidate(row: RowView) -> bool {
    row.entry is Some && row.doc is None
}

/// How many of the first `n` rows could be uploaded to the given directory and name.
pub open spec fn rivals(rows: Seq<RowView>, n: nat, target: (Seq<char>, Seq<char>)) -> nat
    decreases n,
{
    if n == 0 {
        0
    } else {
        rivals(rows, (n - 1) as nat, target) + (if is_candidate(rows[n - 1]) && target_of(
            rows[n - 1].key,
        ) == target {
            1nat
        } else {
            0nat
        })
    }
}

/// Actions by kind, in the order in which they are applied.
pub struct BucketsView {
    pub transfers: Seq<ActionView>,
    pub deletes: Seq<ActionView>,
    pub forgets: Seq<ActionView>,
    pub notes: Seq<ActionView>,
}

/// The action that copies a device document to a local path.
pub open spec fn download_action(key: Seq<char>, doc: RemoteView) -> ActionView {
    ActionView::Download {
        local: key,
        uuid: doc.uuid,
        doc_type: doc.doc_type,
        size_bytes: doc.size_bytes,
        last_modified: doc.last_modified,
    }
}

/// The UUID of the document of a row.
pub open spec fn row_uuid(row: RowView) -> Seq<char> {
    match row.st {
        Some(st) => st.uuid,
        None => row.doc->Some_0.uuid,
    }
}

/// The buckets with what is decided for one row.
pub open spec fn with_row(
    b: BucketsView,
    row: RowView,
    decided: Decision,
    taken: bool,
    shared: bool,
) -> BucketsView {
    let key = row.key;
    match decided {
        Decision::Nothing => b,
        Decision::Upload => if taken {
            BucketsView {
                notes: b.notes.push(
                    ActionView::Skip { path: key, reason: Note::NameTaken.text() },
                ),
                ..b
            }
        } else if shared {
            BucketsView {
                notes: b.notes.push(
                    ActionView::Skip { path: key, reason: Note::NameShared.text() },
                ),
                ..b
            }
        } else {
            BucketsView {
                transfers: b.transfers.push(
                    ActionView::Upload {
                        local: key,
                        kind: row.entry->Some_0.kind,
                        remote_dir: target_of(key).0,
                        name: target_of(key).1,
                    },
                ),
                ..b
            }
        },
        Decision::Update => BucketsView {
            transfers: b.transfers.push(
                ActionView::UpdateRemote {
                    local: key,
                    kind: row.entry->Some_0.kind,
                    uuid: row_uuid(row),
                },
            ),
            ..b
        },
        Decision::Download => BucketsView {
            transfers: b.transfers.push(download_action(key, row.doc->Some_0)),
            ..b
        },
        Decision::DeleteRemote => BucketsView {
            deletes: b.deletes.push(
                ActionView::DeleteRemote { path: key, uuid: row.doc->Some_0.uuid },
            ),
            ..b
        },
        Decision::DeleteLocal => BucketsView {
            deletes: b.deletes.push(ActionView::DeleteLocal { path: key }),
            ..b
        },
        Decision::Forget => BucketsView {
            forgets: b.forgets.push(ActionView::Forget { path: key }),
            ..b
        },
        Decision::Release(note) => BucketsView {
            forgets: b.forgets.push(ActionView::Forget { path: key }),
            notes: b.notes.push(ActionView::Skip { path: key, reason: note.text() }),
            ..b
        },
        Decision::Conflict(note) => BucketsView {
            notes: b.notes.push(ActionView::Conflict { path: key, reason: note.text() }),
            ..b
        },
        Decision::Skip(note) => BucketsView {
            notes: b.notes.push(ActionView::Skip { path: key, reason: note.text() }),
            ..b
        },
    }
}

/// The decision for a row.
pub open spec fn row_decision(options: SyncOptions, row: RowView) -> Decision {
    decision(options, row.st, row.entry, row.doc)
}

/// The buckets with what is decided for the first `n` rows; `notes` come first.
pub open spec fn filled(
    options: SyncOptions,
    remote: SnapshotView,
    rows: Seq<RowView>,
    n: nat,
    notes: Seq<ActionView>,
) -> BucketsView
    decreases n,
{
    if n == 0 {
        BucketsView {
            transfers: Seq::empty(),
            deletes: Seq::empty(),
            forgets: Seq::empty(),
            notes,
        }
    } else {
        let row = rows[n - 1];
        with_row(
            filled(options, remote, rows, (n - 1) as nat, notes),
            row,
            row_decision(options, row),
            is_taken(remote, target_of(row.key)),
            rivals(rows, rows.len(), target_of(row.key)) > 1,
        )
    }
}

/// Those of the first `n` directories that are not among the folders.
pub open spec fn missing_dirs(
    dirs: Seq<Seq<char>>,
    n: nat,
    folders: Seq<(Seq<char>, Seq<char>)>,
) -> Seq<Seq<char>>
    decreases n,
{
    if n == 0 {
        Seq::empty()
    } else {
        let before = missing_dirs(dirs, (n - 1) as nat, folders);
        if value_of(folders, dirs[n - 1]) is Some {
            before
        } else {
            before.push(dirs[n - 1])
        }
    }
}

/// The missing directories that the uploads among the first `n` transfers go to, with the
/// directories around them.
pub open spec fn needed_dirs(
    transfers: Seq<ActionView>,
    n: nat,
    folders: Seq<(Seq<char>, Seq<char>)>,
) -> Seq<Seq<char>>
    decreases n,
{
    if n == 0 {
        Seq::empty()
    } else {
        let before = needed_dirs(transfers, (n - 1) as nat, folders);
        match transfers[n - 1] {
            ActionView::Upload { remote_dir, .. } => before + missing_dirs(
                prefixes(remote_dir),
                prefixes(remote_dir).len(),
                folders,
            ),
            _ => before,
        }
    }
}

/// One folder creation for each directory.
pub open spec fn creations(dirs: Seq<Seq<char>>) -> Seq<ActionView> {
    Seq::new(dirs.len(), |i: int| ActionView::CreateRemoteFolder { rel_dir: dirs[i] })
}

/// The buckets of a plan.
pub open spec fn plan_buckets(
    options: SyncOptions,
    local: Seq<LocalView>,
    remote: SnapshotView,
    state: Seq<(Seq<char>, StateView)>,
) -> BucketsView {
    let rows = plan_rows(local, remote.docs, state);
    filled(
        options,
        remote,
        rows,
        rows.len(),
        remote.skips + tracked_notes(remote.docs, remote.docs.len(), state),
    )
}

/// The actions of a plan: folders, transfers, deletions, forgotten mappings, notes.
pub open spec fn planned(
    options: SyncOptions,
    local: Seq<LocalView>,
    remote: SnapshotView,
    state: Seq<(Seq<char>, StateView)>,
) -> Seq<ActionView> {
    let b = plan_buckets(options, local, remote, state);
    creations(sort_dedup(needed_dirs(b.transfers, b.transfers.len(), remote.folders))) + b.transfers
        + b.deletes + b.forgets + b.notes
}

/// All that is known of one path.
struct Row<'a> {
    key: String,
    st: Option<&'a StateEntry>,
    entry: Option<&'a LocalEntry>,
    doc: Option<&'a RemoteDoc>,
    /// Device directory and name of the path.
    dir: String,
    name: String,
}

impl<'a> DeepView for Row<'a> {
    type V = RowView;

    closed spec fn deep_view(&self) -> RowView {
        RowView {
            key: self.key@,
            st: self.st.deep_view(),
            entry: self.entry.deep_view(),
            doc: self.doc.deep_view(),
        }
    }
}

struct Buckets {
    transfers: Vec<SyncAction>,
    deletes: Vec<SyncAction>,
    forgets: Vec<SyncAction>,
    notes: Vec<SyncAction>,
}

impl DeepView for Buckets {
    type V = BucketsView;

    closed spec fn deep_view(&self) -> BucketsView {
        BucketsView {
            transfers: self.transfers.deep_view(),
            deletes: self.deletes.deep_view(),
            forgets: self.forgets.deep_view(),
            notes: self.notes.deep_view(),
        }
    }
}

fn has_mapping(state: &SyncState, uuid: &str) -> (r: bool)
    ensures
        r == is_mapped(state.entries.pairs(), uuid@),
{
    let ghost pairs = state.entries.pairs();
    let mut i: usize = 0;
    while i < state.entries.len()
        invariant
            i <= pairs.len(),
            pairs == state.entries.pairs(),
            forall|k: int| 0 <= k < i ==> (#[trigger] pairs[k]).1.uuid != uuid@,
        decreases pairs.len() - i,
    {
        if str_eq(state.entries.value_at(i).uuid.as_str(), uuid) {
            assert(pairs[i as int].1.uuid == uuid@);
            return true;
        }
        i += 1;
    }
    false
}

fn find_local<'a>(local: &'a [LocalEntry], key: &str) -> (r: Option<&'a LocalEntry>)
    ensures
        r.deep_view() == local_at(local.deep_view(), key@),
{
    let ghost all = local.deep_view();
    let mut i: usize = local.len();
    assert(all.take(i as int) =~= all);
    while i > 0
        invariant
            i <= local.len(),
            all == local.deep_view(),
            local_at(all, key@) == local_at(all.take(i as int), key@),
        decreases i,
    {
        i -= 1;
        assert(all.take(i + 1).drop_last() =~= all.take(i as int));
        assert(all.take(i + 1).last() == local[i as int].deep_view());
        if str_eq(local[i].rel_path.as_str(), key) {
            return Some(&local[i]);
        }
    }
    None
}

fn find_doc<'a>(docs: &'a [RemoteDoc], uuid: &str) -> (r: Option<&'a RemoteDoc>)
    ensures
        r.deep_view() == doc_with(docs.deep_view(), uuid@),
{
    let ghost all = docs.deep_view();
    let mut i: usize = docs.len();
    assert(all.take(i as int) =~= all);
    while i > 0
        invariant
            i <= docs.len(),
            all == docs.deep_view(),
            doc_with(all, uuid@) == doc_with(all.take(i as int), uuid@),
        decreases i,
    {
        i -= 1;
        assert(all.take(i + 1).drop_last() =~= all.take(i as int));
        assert(all.take(i + 1).last() == docs[i as int].deep_view());
        if str_eq(docs[i].uuid.as_str(), uuid) {
            return Some(&docs[i]);
        }
    }
    None
}

/// The local paths of the documents, and whether no mapping names them.
struct Loose {
    paths: Vec<String>,
    loose: Vec<bool>,
}

impl Loose {
    spec fn tells(&self, docs: Seq<RemoteView>, state: Seq<(Seq<char>, StateView)>) -> bool {
        &&& self.paths.len() == docs.len()
        &&& self.loose.len() == docs.len()
        &&& forall|i: int| 0 <= i < docs.len() ==> #[trigger] self.paths[i]@ == docs[i].local_path()
        &&& forall|i: int|
            0 <= i < docs.len() ==> #[trigger] self.loose[i] == !is_mapped(state, docs[i].uuid)
    }
}

fn tell_loose(docs: &[RemoteDoc], state: &SyncState) -> (r: Loose)
    ensures
        r.tells(docs.deep_view(), state.entries.pairs()),
{
    let mut paths: Vec<String> = Vec::new();
    let mut loose: Vec<bool> = Vec::new();
    let ghost all = docs.deep_view();
    let ghost pairs = state.entries.pairs();
    let mut i: usize = 0;
    while i < docs.len()
        invariant
            i <= docs.len(),
            all == docs.deep_view(),
            pairs == state.entries.pairs(),
            paths.len() == i,
            loose.len() == i,
            forall|k: int| 0 <= k < i ==> #[trigger] paths[k]@ == all[k].local_path(),
            forall|k: int| 0 <= k < i ==> #[trigger] loose[k] == !is_mapped(pairs, all[k].uuid),
        decreases docs.len() - i,
    {
        assert(all[i as int] == docs[i as int].deep_view());
        paths.push(docs[i].local_rel_path());
        loose.push(!has_mapping(state, docs[i].uuid.as_str()));
        i += 1;
    }
    Loose { paths, loose }
}

fn find_loose<'a>(
    docs: &'a [RemoteDoc],
    told: &Loose,
    key: &str,
    Ghost(state): Ghost<Seq<(Seq<char>, StateView)>>,
) -> (r: Option<&'a RemoteDoc>)
    requires
        told.tells(docs.deep_view(), state),
    ensures
        r.deep_view() == loose_doc(docs.deep_view(), 0, state, key@),
{
    let ghost all = docs.deep_view();
    let mut i: usize = 0;
    while i < docs.len()
        invariant
            i <= docs.len(),
            all == docs.deep_view(),
            told.tells(all, state),
            loose_doc(all, 0, state, key@) == loose_doc(all, i as int, state, key@),
        decreases docs.len() - i,
    {
        assert(all[i as int] == docs[i as int].deep_view());
        assert(told.paths[i as int]@ == all[i as int].local_path());
        assert(told.loose[i as int] == !is_mapped(state, all[i as int].uuid));
        if told.loose[i] && str_eq(told.paths[i].as_str(), key) {
            return Some(&docs[i]);
        }
        i += 1;
    }
    None
}

fn collect_keys(
    local: &[LocalEntry],
    docs: &[RemoteDoc],
    told: &Loose,
    state: &SyncState,
) -> (out: Vec<String>)
    requires
        told.tells(docs.deep_view(), state.entries.pairs()),
    ensures
        out.deep_view() == plan_keys(
            local.deep_view(),
            docs.deep_view(),
            state.entries.pairs(),
        ),
{
    let ghost pairs = state.entries.pairs();
    let ghost locals = local.deep_view();
    let ghost all = docs.deep_view();
    let mut out: Vec<String> = Vec::new();
    let mut i: usize = 0;
    assert(out.deep_view() =~= Seq::empty());
    assert(keys(pairs).take(0) =~= Seq::empty());
    while i < state.entries.len()
        invariant
            i <= pairs.len(),
            pairs == state.entries.pairs(),
            out.deep_view() == sort_dedup(keys(pairs).take(i as int)),
        decreases pairs.len() - i,
    {
        insert_text_in(&mut out, state.entries.key_at(i));
        assert(keys(pairs).take(i + 1).drop_last() =~= keys(pairs).take(i as int));
        i += 1;
    }
    assert(keys(pairs).take(i as int) =~= keys(pairs));
    let ghost base = keys(pairs);
    let ghost lp = local_paths(locals);
    let mut j: usize = 0;
    assert(base + lp.take(0) =~= base);
    while j < local.len()
        invariant
            j <= local.len(),
            locals == local.deep_view(),
            lp == local_paths(locals),
            out.deep_view() == sort_dedup(base + lp.take(j as int)),
        decreases local.len() - j,
    {
        assert(locals[j as int] == local[j as int].deep_view());
        insert_text_in(&mut out, local[j].rel_path.as_str());
        assert((base + lp.take(j + 1)).drop_last() =~= base + lp.take(j as int));
        j += 1;
    }
    assert(lp.take(j as int) =~= lp);
    let ghost both = base + lp;
    let mut k: usize = 0;
    assert(both + loose_paths(all, 0, pairs) =~= both);
    while k < docs.len()
        invariant
            k <= docs.len(),
            all == docs.deep_view(),
            told.tells(all, pairs),
            out.deep_view() == sort_dedup(both + loose_paths(all, k as nat, pairs)),
        decreases docs.len() - k,
    {
        assert(told.paths[k as int]@ == all[k as int].local_path());
        assert(told.loose[k as int] == !is_mapped(pairs, all[k as int].uuid));
        if told.loose[k] {
            insert_text_in(&mut out, told.paths[k].as_str());
            let ghost before = loose_paths(all, k as nat, pairs);
            assert((both + before.push(all[k as int].local_path())).drop_last() =~= both + before);
        }
        k += 1;
    }
    out
}

fn make_rows<'a>(
    local: &'a [LocalEntry],
    docs: &'a [RemoteDoc],
    told: &Loose,
    state: &'a SyncState,
) -> (rows: Vec<Row<'a>>)
    requires
        told.tells(docs.deep_view(), state.entries.pairs()),
    ensures
        rows.deep_view() == plan_rows(
            local.deep_view(),
            docs.deep_view(),
            state.entries.pairs(),
        ),
        forall|i: int|
            0 <= i < rows.len() ==> ((#[trigger] rows[i]).dir@, rows[i].name@) == target_of(
                rows[i].key@,
            ),
{
    let ghost pairs = state.entries.pairs();
    let ghost locals = local.deep_view();
    let ghost all = docs.deep_view();
    let found = collect_keys(local, docs, told, state);
    let ghost ks = found.deep_view();
    let mut rows: Vec<Row<'a>> = Vec::new();
    let mut i: usize = 0;
    while i < found.len()
        invariant
            i <= found.len(),
            ks == found.deep_view(),
            pairs == state.entries.pairs(),
            locals == local.deep_view(),
            all == docs.deep_view(),
            told.tells(all, pairs),
            rows.len() == i,
            forall|k: int|
                0 <= k < i ==> (#[trigger] rows[k]).deep_view() == row_of(
                    locals,
                    all,
                    pairs,
                    ks[k],
                ),
            forall|k: int|
                0 <= k < i ==> ((#[trigger] rows[k]).dir@, rows[k].name@) == target_of(
                    rows[k].key@,
                ),
        decreases found.len() - i,
    {
        let key = found[i].as_str();
        assert(ks[i as int] == key@);
        let st = state.entries.get(key);
        let doc = match st {
            Some(entry) => find_doc(docs, entry.uuid.as_str()),
            None => find_loose(docs, told, key, Ghost(pairs)),
        };
        let (dir, name) = split_target(key);
        let row = Row { key: key.to_owned(), st, entry: find_local(local, key), doc, dir, name };
        assert(row.deep_view() == row_of(locals, all, pairs, key@));
        rows.push(row);
        i += 1;
    }
    assert(rows.deep_view() =~= plan_rows(locals, all, pairs));
    rows
}

fn is_loose_before(
    told: &Loose,
    n: usize,
    path: &str,
    Ghost(docs): Ghost<Seq<RemoteView>>,
    Ghost(state): Ghost<Seq<(Seq<char>, StateView)>>,
) -> (r: bool)
    requires
        told.tells(docs, state),
        n <= docs.len(),
    ensures
        r == has_loose(docs, n as nat, state, path@),
{
    let mut j: usize = 0;
    while j < n
        invariant
            j <= n <= docs.len(),
            told.tells(docs, state),
            forall|k: int|
                0 <= k < j ==> !(!is_mapped(state, (#[trigger] docs[k]).uuid)
                    && docs[k].local_path() == path@),
        decreases n - j,
    {
        assert(told.paths[j as int]@ == docs[j as int].local_path());
        assert(told.loose[j as int] == !is_mapped(state, docs[j as int].uuid));
        if told.loose[j] && str_eq(told.paths[j].as_str(), path) {
            assert(!is_mapped(state, docs[j as int].uuid));
            return true;
        }
        j += 1;
    }
    false
}

fn note_tracked(docs: &[RemoteDoc], told: &Loose, state: &SyncState, notes: &mut Vec<SyncAction>)
    requires
        told.tells(docs.deep_view(), state.entries.pairs()),
    ensures
        final(notes).deep_view() == old(notes).deep_view() + tracked_notes(
            docs.deep_view(),
            docs.len() as nat,
            state.entries.pairs(),
        ),
{
    let ghost all = docs.deep_view();
    let ghost pairs = state.entries.pairs();
    let ghost start = notes.deep_view();
    let mut i: usize = 0;
    assert(start + tracked_notes(all, 0, pairs) =~= start);
    while i < docs.len()
        invariant
            i <= docs.len(),
            all == docs.deep_view(),
            pairs == state.entries.pairs(),
            told.tells(all, pairs),
            notes.deep_view() == start + tracked_notes(all, i as nat, pairs),
        decreases docs.len() - i,
    {
        assert(told.paths[i as int]@ == all[i as int].local_path());
        assert(told.loose[i as int] == !is_mapped(pairs, all[i as int].uuid));
        if told.loose[i] {
            let path = told.paths[i].as_str();
            let taken = state.entries.contains_key(path) || is_loose_before(
                told,
                i,
                path,
                Ghost(all),
                Ghost(pairs),
            );
            if taken {
                let ghost before = notes.deep_view();
                let ghost note = ActionView::Skip {
                    path: path@,
                    reason: Note::AlreadyTracked.text(),
                };
                notes.push(
                    SyncAction::Skip {
                        path: path.to_owned(),
                        reason: Note::AlreadyTracked.as_str().to_owned(),
                    },
                );
                assert(notes.deep_view() =~= before.push(note));
                assert(notes.deep_view() =~= start + tracked_notes(all, (i + 1) as nat, pairs));
            }
        }
        i += 1;
    }
}

fn name_is_taken(remote: &RemoteSnapshot, dir: &str, name: &str) -> (r: bool)
    ensures
        r == is_taken(remote.deep_view(), (dir@, name@)),
{
    let ghost view = remote.deep_view();
    let ghost target = (dir@, name@);
    let mut i: usize = 0;
    while i < remote.docs.len()
        invariant
            i <= remote.docs.len(),
            view == remote.deep_view(),
            target == (dir@, name@),
            forall|k: int|
                0 <= k < i ==> !((#[trigger] view.docs[k]).rel_dir == target.0 && view.docs[k].name
                    == target.1),
        decreases remote.docs.len() - i,
    {
        assert(view.docs[i as int] == remote.docs[i as int].deep_view());
        if str_eq(remote.docs[i].rel_dir.as_str(), dir) && str_eq(
            remote.docs[i].name.as_str(),
            name,
        ) {
            return true;
        }
        i += 1;
    }
    let mut j: usize = 0;
    while j < remote.folders.len()
        invariant
            j <= view.folders.len(),
            view == remote.deep_view(),
            target == (dir@, name@),
            forall|k: int|
                0 <= k < view.docs.len() ==> !((#[trigger] view.docs[k]).rel_dir == target.0
                    && view.docs[k].name == target.1),
            forall|k: int|
                0 <= k < j ==> !((#[trigger] view.folders[k]).0.len() > 0 && split_dir(
                    view.folders[k].0,
                ) == target),
        decreases view.folders.len() - j,
    {
        let path = remote.folders.key_at(j);
        assert(view.folders[j as int].0 == path@);
        if !path.is_empty() {
            let (d, n) = split_path(path);
            if str_eq(d.as_str(), dir) && str_eq(n.as_str(), name) {
                return true;
            }
        }
        j += 1;
    }
    false
}

fn name_is_shared(rows: &Vec<Row>, dir: &str, name: &str) -> (r: bool)
    requires
        forall|i: int|
            0 <= i < rows.len() ==> ((#[trigger] rows[i]).dir@, rows[i].name@) == target_of(
                rows[i].key@,
            ),
    ensures
        r == (rivals(rows.deep_view(), rows.len() as nat, (dir@, name@)) > 1),
{
    let ghost views = rows.deep_view();
    let ghost target = (dir@, name@);
    let mut found = false;
    let mut shared = false;
    let mut i: usize = 0;
    while i < rows.len()
        invariant
            i <= rows.len(),
            views == rows.deep_view(),
            target == (dir@, name@),
            forall|k: int|
                0 <= k < rows.len() ==> ((#[trigger] rows[k]).dir@, rows[k].name@) == target_of(
                    rows[k].key@,
                ),
            found == (rivals(views, i as nat, target) >= 1),
            shared == (rivals(views, i as nat, target) > 1),
        decreases rows.len() - i,
    {
        let row = &rows[i];
        assert(views[i as int] == row.deep_view());
        if row.entry.is_some() && row.doc.is_none() && str_eq(row.dir.as_str(), dir) && str_eq(
            row.name.as_str(),
            name,
        ) {
            if found {
                shared = true;
            }
            found = true;
        }
        i += 1;
    }
    shared
}

fn push_action(v: &mut Vec<SyncAction>, action: SyncAction)
    ensures
        final(v).deep_view() == old(v).deep_view().push(action.deep_view()),
{
    let ghost before = v.deep_view();
    let ghost view = action.deep_view();
    v.push(action);
    assert(v.deep_view() =~= before.push(view));
}

fn skip(key: &str, note: Note) -> (r: SyncAction)
    ensures
        r.deep_view() == (ActionView::Skip { path: key@, reason: note.text() }),
{
    SyncAction::Skip { path: key.to_owned(), reason: note.as_str().to_owned() }
}

fn conflict(key: &str, note: Note) -> (r: SyncAction)
    ensures
        r.deep_view() == (ActionView::Conflict { path: key@, reason: note.text() }),
{
    SyncAction::Conflict { path: key.to_owned(), reason: note.as_str().to_owned() }
}

fn download(key: &str, doc: &RemoteDoc) -> (r: SyncAction)
    ensures
        r.deep_view() == download_action(key@, doc.deep_view()),
{
    SyncAction::Download {
        local: key.to_owned(),
        uuid: doc.uuid.clone(),
        doc_type: doc.doc_type,
        size_bytes: doc.size_bytes,
        last_modified: doc.last_modified,
    }
}

fn update_remote(key: &str, kind: DocKind, uuid: &str) -> (r: SyncAction)
    ensures
        r.deep_view() == (ActionView::UpdateRemote { local: key@, kind, uuid: uuid@ }),
{
    SyncAction::UpdateRemote { local: key.to_owned(), kind, uuid: uuid.to_owned() }
}

fn upload_with_guards(
    row: &Row,
    entry: &LocalEntry,
    remote: &RemoteSnapshot,
    rows: &Vec<Row>,
    out: &mut Buckets,
)
    requires
        row.entry == Some(entry),
        (row.dir@, row.name@) == target_of(row.key@),
        forall|i: int|
            0 <= i < rows.len() ==> ((#[trigger] rows[i]).dir@, rows[i].name@) == target_of(
                rows[i].key@,
            ),
    ensures
        final(out).deep_view() == with_row(
            old(out).deep_view(),
            row.deep_view(),
            Decision::Upload,
            is_taken(remote.deep_view(), target_of(row.key@)),
            rivals(rows.deep_view(), rows.len() as nat, target_of(row.key@)) > 1,
        ),
{
    if name_is_taken(remote, row.dir.as_str(), row.name.as_str()) {
        push_action(&mut out.notes, skip(row.key.as_str(), Note::NameTaken));
    } else if name_is_shared(rows, row.dir.as_str(), row.name.as_str()) {
        push_action(&mut out.notes, skip(row.key.as_str(), Note::NameShared));
    } else {
        push_action(
            &mut out.transfers,
            SyncAction::Upload {
                local: row.key.clone(),
                kind: entry.kind,
                remote_dir: row.dir.clone(),
                name: row.name.clone(),
            },
        );
    }
}

proof fn decisions_fit(options: SyncOptions, row: RowView)
    ensures
        row_decision(options, row) == Decision::Upload ==> row.entry is Some,
        row_decision(options, row) == Decision::Update ==> row.entry is Some && row.doc is Some,
        row_decision(options, row) == Decision::Download ==> row.doc is Some,
        row_decision(options, row) == Decision::DeleteRemote ==> row.doc is Some,
{
}

fn apply_row(
    options: SyncOptions,
    row: &Row,
    remote: &RemoteSnapshot,
    rows: &Vec<Row>,
    out: &mut Buckets,
)
    requires
        (row.dir@, row.name@) == target_of(row.key@),
        forall|i: int|
            0 <= i < rows.len() ==> ((#[trigger] rows[i]).dir@, rows[i].name@) == target_of(
                rows[i].key@,
            ),
    ensures
        final(out).deep_view() == with_row(
            old(out).deep_view(),
            row.deep_view(),
            row_decision(options, row.deep_view()),
            is_taken(remote.deep_view(), target_of(row.key@)),
            rivals(rows.deep_view(), rows.len() as nat, target_of(row.key@)) > 1,
        ),
{
    let key = row.key.as_str();
    let decided = decide(options, row.st, row.entry, row.doc);
    proof {
        decisions_fit(options, row.deep_view());
    }
    match decided {
        Decision::Nothing => {},
        Decision::Upload => {
            if let Some(entry) = row.entry {
                upload_with_guards(row, entry, remote, rows, out);
            }
        },
        Decision::Update => {
            if let Some(entry) = row.entry {
                if let Some(doc) = row.doc {
                    let uuid = match row.st {
                        Some(st) => st.uuid.as_str(),
                        None => doc.uuid.as_str(),
                    };
                    push_action(&mut out.transfers, update_remote(key, entry.kind, uuid));
                }
            }
        },
        Decision::Download => {
            if let Some(doc) = row.doc {
                push_action(&mut out.transfers, download(key, doc));
            }
        },
        Decision::DeleteRemote => {
            if let Some(doc) = row.doc {
                push_action(
                    &mut out.deletes,
                    SyncAction::DeleteRemote { path: key.to_owned(), uuid: doc.uuid.clone() },
                );
            }
        },
        Decision::DeleteLocal => {
            push_action(&mut out.deletes, SyncAction::DeleteLocal { path: key.to_owned() });
        },
        Decision::Forget => {
            push_action(&mut out.forgets, SyncAction::Forget { path: key.to_owned() });
        },
        Decision::Release(note) => {
            push_action(&mut out.forgets, SyncAction::Forget { path: key.to_owned() });
            push_action(&mut out.notes, skip(key, note));
        },
        Decision::Conflict(note) => {
            push_action(&mut out.notes, conflict(key, note));
        },
        Decision::Skip(note) => {
            push_action(&mut out.notes, skip(key, note));
        },
    }
}

proof fn insert_missing(
    start: Seq<Seq<char>>,
    dirs: Seq<Seq<char>>,
    k: nat,
    folders: Seq<(Seq<char>, Seq<char>)>,
)
    requires
        k < dirs.len(),
    ensures
        value_of(folders, dirs[k as int]) is None ==> sort_dedup(
            start + missing_dirs(dirs, k + 1, folders),
        ) == crate::text::insert_text(
            sort_dedup(start + missing_dirs(dirs, k, folders)),
            dirs[k as int],
        ),
        value_of(folders, dirs[k as int]) is Some ==> missing_dirs(dirs, k + 1, folders)
            == missing_dirs(dirs, k, folders),
{
    let before = missing_dirs(dirs, k, folders);
    assert((start + before.push(dirs[k as int])).drop_last() =~= start + before);
}

fn collect_dirs(transfers: &Vec<SyncAction>, remote: &RemoteSnapshot) -> (out: Vec<String>)
    ensures
        out.deep_view() == sort_dedup(
            needed_dirs(
                transfers.deep_view(),
                transfers.len() as nat,
                remote.deep_view().folders,
            ),
        ),
{
    let ghost views = transfers.deep_view();
    let ghost folders = remote.deep_view().folders;
    let mut out: Vec<String> = Vec::new();
    let mut i: usize = 0;
    assert(out.deep_view() =~= Seq::empty());
    while i < transfers.len()
        invariant
            i <= transfers.len(),
            views == transfers.deep_view(),
            folders == remote.folders.pairs(),
            out.deep_view() == sort_dedup(needed_dirs(views, i as nat, folders)),
        decreases transfers.len() - i,
    {
        assert(views[i as int] == transfers[i as int].deep_view());
        match &transfers[i] {
            SyncAction::Upload { remote_dir, .. } => {
                let dirs = path_prefixes(remote_dir.as_str());
                let ghost ds = dirs.deep_view();
                let ghost start = needed_dirs(views, i as nat, folders);
                let mut k: usize = 0;
                assert(start + missing_dirs(ds, 0, folders) =~= start);
                while k < dirs.len()
                    invariant
                        k <= dirs.len(),
                        ds == dirs.deep_view(),
                        folders == remote.folders.pairs(),
                        out.deep_view() == sort_dedup(start + missing_dirs(ds, k as nat, folders)),
                    decreases dirs.len() - k,
                {
                    proof {
                        assert(ds[k as int] == dirs[k as int]@);
                        insert_missing(start, ds, k as nat, folders);
                    }
                    if !remote.folders.contains_key(dirs[k].as_str()) {
                        insert_text_in(&mut out, dirs[k].as_str());
                    }
                    k += 1;
                }
                assert(ds.len() == dirs.len());
            },
            _ => {},
        }
        i += 1;
    }
    out
}

fn move_all(out: &mut Vec<SyncAction>, mut from: Vec<SyncAction>)
    ensures
        final(out).deep_view() == old(out).deep_view() + from.deep_view(),
{
    let ghost start = out.deep_view();
    let ghost more = from.deep_view();
    out.append(&mut from);
    assert(out.deep_view() =~= start + more);
}

/// Computes the ordered action plan. Pure: no I/O.
pub fn plan(
    options: SyncOptions,
    local: &[LocalEntry],
    remote: &RemoteSnapshot,
    state: &SyncState,
) -> (r: Plan)
    ensures
        r.actions.deep_view() == planned(
            options,
            local.deep_view(),
            remote.deep_view(),
            state.entries.pairs(),
        ),
{
    let ghost view = remote.deep_view();
    let ghost pairs = state.entries.pairs();
    let told = tell_loose(&remote.docs, state);
    let mut notes: Vec<SyncAction> = Vec::new();
    let mut i: usize = 0;
    while i < remote.skips.len()
        invariant
            i <= remote.skips.len(),
            notes.deep_view() =~= remote.skips.deep_view().take(i as int),
        decreases remote.skips.len() - i,
    {
        push_action(&mut notes, remote.skips[i].clone());
        i += 1;
    }
    assert(notes.deep_view() =~= view.skips);
    note_tracked(&remote.docs, &told, state, &mut notes);
    let ghost first_notes = notes.deep_view();
    let rows = make_rows(local, &remote.docs, &told, state);
    let ghost row_views = rows.deep_view();
    let mut buckets = Buckets {
        transfers: Vec::new(),
        deletes: Vec::new(),
        forgets: Vec::new(),
        notes,
    };
    proof {
        assert(buckets.transfers.deep_view() =~= Seq::empty());
        assert(buckets.deletes.deep_view() =~= Seq::empty());
        assert(buckets.forgets.deep_view() =~= Seq::empty());
    }
    let mut k: usize = 0;
    while k < rows.len()
        invariant
            k <= rows.len(),
            view == remote.deep_view(),
            row_views == rows.deep_view(),
            forall|j: int|
                0 <= j < rows.len() ==> ((#[trigger] rows[j]).dir@, rows[j].name@) == target_of(
                    rows[j].key@,
                ),
            buckets.deep_view() == filled(options, view, row_views, k as nat, first_notes),
        decreases rows.len() - k,
    {
        assert(row_views[k as int] == rows[k as int].deep_view());
        assert(row_views.len() == rows.len());
        apply_row(options, &rows[k], remote, &rows, &mut buckets);
        k += 1;
    }
    assert(row_views.len() == rows.len());
    let dirs = collect_dirs(&buckets.transfers, remote);
    let ghost ds = dirs.deep_view();
    let mut actions: Vec<SyncAction> = Vec::new();
    let mut d: usize = 0;
    while d < dirs.len()
        invariant
            d <= dirs.len(),
            ds == dirs.deep_view(),
            actions.deep_view() =~= creations(ds).take(d as int),
        decreases dirs.len() - d,
    {
        assert(ds[d as int] == dirs[d as int]@);
        push_action(&mut actions, SyncAction::CreateRemoteFolder { rel_dir: dirs[d].clone() });
        d += 1;
    }
    assert(creations(ds).take(d as int) =~= creations(ds));
    move_all(&mut actions, buckets.transfers);
    move_all(&mut actions, buckets.deletes);
    move_all(&mut actions, buckets.forgets);
    move_all(&mut actions, buckets.notes);
    Plan { actions }
}

} // verus!
