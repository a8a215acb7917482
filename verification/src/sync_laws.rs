//! What a sync does about each kind of change, whatever else it has to do.
//!
//! Every law here is about one path: what the sync state, the local directory and the device hold
//! about it, and what the plan does then.
use vstd::prelude::*;
use crate::converge::{
    doc_with_at, first_loose_document, loose_doc_is_loose, plan_rows_have_distinct_keys,
    position_origin, row_for, row_position, rows_act_once, subject,
};
use crate::file_laws::{paths_split_where_they_were_joined, ways_go_through_all_directories};
use crate::pathmap::{keys, value_of, value_of_at, value_of_is_keyed};
use crate::plan::{
    creations, doc_with, filled, has_loose, is_candidate, is_mapped, is_taken, local_at, loose_doc,
    loose_paths, needed_dirs, plan_buckets, plan_rows, planned, rivals, row_decision, row_of,
    tracked_notes, Decision, RowView,
};
use crate::plan_laws::{
    doc_with_has_uuid, filled_step, is_upload_dir, needed_dirs_members, planned_parts, rivals_counts, row_buckets,
    stage,
};
use crate::sync::{
    prefixes, split_dir, target_of, ActionView, ConflictPolicy, DocKind, LocalView, Mode, RemoteType, RemoteView,
    SnapshotView, StateView, SyncOptions,
};
use crate::text::{
    ascending, find_last, find_last_is_last, sort_dedup, sort_dedup_is_ascending, Class,
};

verus! {

/// The path that an action is about; creating a folder is about none.
pub open spec fn about(action: ActionView) -> Option<Seq<char>> {
    match action {
        ActionView::CreateRemoteFolder { .. } => None,
        ActionView::Upload { local, .. } => Some(local),
        ActionView::UpdateRemote { local, .. } => Some(local),
        ActionView::Download { local, .. } => Some(local),
        ActionView::DeleteRemote { path, .. } => Some(path),
        ActionView::DeleteLocal { path } => Some(path),
        ActionView::Forget { path } => Some(path),
        ActionView::Conflict { path, .. } => Some(path),
        ActionView::Skip { path, .. } => Some(path),
    }
}

/// Whether the one thing that is done about a path is the given action. Remarks on skipped items do
/// not count.
pub open spec fn does_only(plan: Seq<ActionView>, path: Seq<char>, action: ActionView) -> bool {
    &&& plan.contains(action)
    &&& forall|x: ActionView| #[trigger]
        plan.contains(x) && about(x) == Some(path) && !(x is Skip) ==> x == action
}

/// Whether nothing is done about a path. Remarks on skipped items do not count.
pub open spec fn does_nothing(plan: Seq<ActionView>, path: Seq<char>) -> bool {
    forall|x: ActionView| #[trigger] plan.contains(x) && about(x) == Some(path) ==> x is Skip
}

/// Whether nothing is done about a path, and the plan says why.
pub open spec fn only_says(plan: Seq<ActionView>, path: Seq<char>, reason: Seq<char>) -> bool {
    does_nothing(plan, path) && plan.contains(ActionView::Skip { path, reason })
}

/// Whether the path is reported as a conflict for the given reason, and left alone.
pub open spec fn reports_conflict(plan: Seq<ActionView>, path: Seq<char>, reason: Seq<char>) -> bool {
    does_only(plan, path, ActionView::Conflict { path, reason })
}

/// What a sync starts from: its options, the local files, the device and the state.
pub struct Start {
    pub options: SyncOptions,
    pub local: Seq<LocalView>,
    pub remote: SnapshotView,
    pub state: Seq<(Seq<char>, StateView)>,
}

impl Start {
    /// The actions that are planned.
    pub open spec fn plan(self) -> Seq<ActionView> {
        planned(self.options, self.local, self.remote, self.state)
    }

    /// Whether the records are in order: mappings by path, local files and documents listed once,
    /// and remarks on what the snapshot left out.
    pub open spec fn is_sound(self) -> bool {
        &&& ascending(keys(self.state))
        &&& forall|i: int, j: int|
            0 <= i < j < self.local.len() ==> (#[trigger] self.local[i]).rel_path != (
            #[trigger] self.local[j]).rel_path
        &&& forall|i: int, j: int|
            0 <= i < j < self.remote.docs.len() ==> (#[trigger] self.remote.docs[i]).uuid != (
            #[trigger] self.remote.docs[j]).uuid
        &&& forall|i: int|
            0 <= i < self.remote.skips.len() ==> (#[trigger] self.remote.skips[i]) is Skip
    }

    /// Whether the path is mapped as recorded.
    pub open spec fn maps(self, path: Seq<char>, st: StateView) -> bool {
        exists|i: int| 0 <= i < self.state.len() && #[trigger] self.state[i] == (path, st)
    }

    /// Whether the path is not mapped.
    pub open spec fn is_unmapped(self, path: Seq<char>) -> bool {
        forall|i: int| 0 <= i < self.state.len() ==> (#[trigger] self.state[i]).0 != path
    }

    /// Whether a mapping names the document.
    pub open spec fn names(self, uuid: Seq<char>) -> bool {
        exists|i: int| 0 <= i < self.state.len() && (#[trigger] self.state[i]).1.uuid == uuid
    }

    /// Whether the local directory holds the file.
    pub open spec fn has_file(self, path: Seq<char>, file: LocalView) -> bool {
        file.rel_path == path && exists|i: int|
            0 <= i < self.local.len() && #[trigger] self.local[i] == file
    }

    /// Whether the local directory holds no such file.
    pub open spec fn lacks_file(self, path: Seq<char>) -> bool {
        forall|i: int| 0 <= i < self.local.len() ==> (#[trigger] self.local[i]).rel_path != path
    }

    /// Whether the device holds the document under the given UUID.
    pub open spec fn has_document(self, uuid: Seq<char>, doc: RemoteView) -> bool {
        doc.uuid == uuid && exists|i: int|
            0 <= i < self.remote.docs.len() && #[trigger] self.remote.docs[i] == doc
    }

    /// Whether the device holds no document of that UUID.
    pub open spec fn lacks_document(self, uuid: Seq<char>) -> bool {
        forall|i: int| 0 <= i < self.remote.docs.len() ==> (#[trigger] self.remote.docs[i]).uuid != uuid
    }

    /// Whether the device holds an unmapped document that a pull would store under the path, and
    /// just one.
    pub open spec fn has_loose(self, path: Seq<char>, doc: RemoteView) -> bool {
        &&& !self.names(doc.uuid)
        &&& doc.local_path() == path
        &&& exists|i: int| 0 <= i < self.remote.docs.len() && #[trigger] self.remote.docs[i] == doc
        &&& forall|i: int|
            0 <= i < self.remote.docs.len() && (#[trigger] self.remote.docs[i]).local_path() == path
                && !self.names(self.remote.docs[i].uuid) ==> self.remote.docs[i] == doc
    }

    /// Whether the device holds no unmapped document that a pull would store under the path.
    pub open spec fn lacks_loose(self, path: Seq<char>) -> bool {
        forall|i: int|
            0 <= i < self.remote.docs.len() && (#[trigger] self.remote.docs[i]).local_path() == path
                ==> self.names(self.remote.docs[i].uuid)
    }
}

proof fn file_is_found(local: Seq<LocalView>, k: int)
    requires
        0 <= k < local.len(),
        forall|i: int, j: int|
            0 <= i < j < local.len() ==> (#[trigger] local[i]).rel_path != (
            #[trigger] local[j]).rel_path,
    ensures
        local_at(local, local[k].rel_path) == Some(local[k]),
    decreases local.len(),
{
    let rest = local.drop_last();
    if k < local.len() - 1 {
        assert(local[k].rel_path != local[local.len() - 1].rel_path);
        assert forall|i: int, j: int| 0 <= i < j < rest.len() implies (#[trigger] rest[i]).rel_path
            != (#[trigger] rest[j]).rel_path by {
            assert(local[i].rel_path != local[j].rel_path);
        }
        file_is_found(rest, k);
        assert(rest[k] == local[k]);
    }
}

proof fn file_is_missed(local: Seq<LocalView>, path: Seq<char>)
    requires
        forall|i: int| 0 <= i < local.len() ==> (#[trigger] local[i]).rel_path != path,
    ensures
        local_at(local, path) is None,
    decreases local.len(),
{
    if local.len() > 0 {
        assert(local[local.len() - 1].rel_path != path);
        let rest = local.drop_last();
        assert forall|i: int| 0 <= i < rest.len() implies (#[trigger] rest[i]).rel_path != path by {
            assert(local[i].rel_path != path);
        }
        file_is_missed(rest, path);
    }
}

proof fn mapping_is_missed(state: Seq<(Seq<char>, StateView)>, path: Seq<char>)
    requires
        forall|i: int| 0 <= i < state.len() ==> (#[trigger] state[i]).0 != path,
    ensures
        value_of(state, path) is None,
{
    value_of_is_keyed(state, path);
    if keys(state).contains(path) {
        let i = choose|i: int| 0 <= i < state.len() && keys(state)[i] == path;
        assert(state[i].0 == path);
    }
}

proof fn loose_path_is_listed(
    docs: Seq<RemoteView>,
    n: nat,
    state: Seq<(Seq<char>, StateView)>,
    k: int,
)
    requires
        0 <= k < n <= docs.len(),
        !is_mapped(state, docs[k].uuid),
    ensures
        loose_paths(docs, n, state).contains(docs[k].local_path()),
    decreases n,
{
    let now = loose_paths(docs, n, state);
    let before = loose_paths(docs, (n - 1) as nat, state);
    if k < n - 1 {
        loose_path_is_listed(docs, (n - 1) as nat, state, k);
        let m = choose|m: int| 0 <= m < before.len() && before[m] == docs[k].local_path();
        assert(now[m] == docs[k].local_path());
    } else {
        assert(now[before.len() as int] == docs[k].local_path());
    }
}

proof fn row_note_is_kept(
    options: SyncOptions,
    remote: SnapshotView,
    rows: Seq<RowView>,
    n: nat,
    notes: Seq<ActionView>,
    i: int,
    x: ActionView,
)
    requires
        0 <= i < n <= rows.len(),
        row_buckets(options, remote, rows, i).notes.contains(x),
    ensures
        filled(options, remote, rows, n, notes).notes.contains(x),
    decreases n,
{
    filled_step(options, remote, rows, n, notes);
    let before = filled(options, remote, rows, (n - 1) as nat, notes).notes;
    let now = filled(options, remote, rows, n, notes).notes;
    let one = row_buckets(options, remote, rows, i).notes;
    if i < n - 1 {
        row_note_is_kept(options, remote, rows, (n - 1) as nat, notes, i, x);
        let k = choose|k: int| 0 <= k < before.len() && before[k] == x;
        assert(now[k] == x);
    } else {
        let k = choose|k: int| 0 <= k < one.len() && one[k] == x;
        assert(now[before.len() + k] == x);
    }
}

proof fn conflict_origin(
    options: SyncOptions,
    remote: SnapshotView,
    rows: Seq<RowView>,
    n: nat,
    notes: Seq<ActionView>,
    x: ActionView,
) -> (i: int)
    requires
        n <= rows.len(),
        forall|k: int| 0 <= k < notes.len() ==> (#[trigger] notes[k]) is Skip,
        filled(options, remote, rows, n, notes).notes.contains(x),
        x is Conflict,
    ensures
        0 <= i < n,
        row_buckets(options, remote, rows, i).notes == seq![x],
    decreases n,
{
    let now = filled(options, remote, rows, n, notes).notes;
    let k = choose|k: int| 0 <= k < now.len() && now[k] == x;
    if n == 0 {
        assert(notes[k] is Skip);
        0
    } else {
        filled_step(options, remote, rows, n, notes);
        let before = filled(options, remote, rows, (n - 1) as nat, notes).notes;
        if k < before.len() {
            assert(before[k] == x);
            conflict_origin(options, remote, rows, (n - 1) as nat, notes, x)
        } else {
            assert(row_buckets(options, remote, rows, n - 1).notes =~= seq![x]);
            n - 1
        }
    }
}

/// What the row of a path leads to stands in the plan, and nothing else about the path does.
proof fn rows_are_planned(start: Start, i: int)
    requires
        start.is_sound(),
        0 <= i < plan_rows(start.local, start.remote.docs, start.state).len(),
    ensures
        ({
            let rows = plan_rows(start.local, start.remote.docs, start.state);
            let one = row_buckets(start.options, start.remote, rows, i);
            let key = rows[i].key;
            &&& forall|x: ActionView|
                #![trigger start.plan().contains(x)]
                (one.transfers.contains(x) || one.deletes.contains(x) || one.forgets.contains(x)
                    || one.notes.contains(x)) ==> start.plan().contains(x)
            &&& forall|x: ActionView| #[trigger]
                start.plan().contains(x) && about(x) == Some(key) && !(x is Skip) ==> (
                one.transfers.contains(x) || one.deletes.contains(x) || one.forgets.contains(x)
                    || one.notes.contains(x))
        }),
{
    let local = start.local;
    let remote = start.remote;
    let state = start.state;
    let options = start.options;
    let rows = plan_rows(local, remote.docs, state);
    let one = row_buckets(options, remote, rows, i);
    let key = rows[i].key;
    let p = start.plan();
    let notes = remote.skips + tracked_notes(remote.docs, remote.docs.len(), state);
    let b = plan_buckets(options, local, remote, state);
    let dirs = sort_dedup(needed_dirs(b.transfers, b.transfers.len(), remote.folders));
    let n3 = creations(dirs).len() + b.transfers.len() + b.deletes.len() + b.forgets.len();
    filled_step(options, remote, rows, (i + 1) as nat, notes);
    planned_parts(options, local, remote, state);
    plan_rows_have_distinct_keys(local, remote.docs, state);
    assert forall|x: ActionView|
        #![trigger p.contains(x)]
        (one.transfers.contains(x) || one.deletes.contains(x) || one.forgets.contains(x)
            || one.notes.contains(x)) implies p.contains(x) by {
        if one.notes.contains(x) {
            row_note_is_kept(options, remote, rows, rows.len(), notes, i, x);
            let k = choose|k: int| 0 <= k < b.notes.len() && b.notes[k] == x;
            assert(p[n3 + k] == x);
        } else {
            if one.transfers.contains(x) {
                assert(one.transfers =~= seq![x]);
            } else if one.deletes.contains(x) {
                assert(one.deletes =~= seq![x]);
            } else {
                assert(one.forgets =~= seq![x]);
            }
            let q = row_position(options, local, remote, state, i, x);
            assert(p[q] == x);
        }
    }
    assert forall|x: ActionView| #[trigger]
        p.contains(x) && about(x) == Some(key) && !(x is Skip) implies (one.transfers.contains(x)
        || one.deletes.contains(x) || one.forgets.contains(x) || one.notes.contains(x)) by {
        let q = choose|q: int| 0 <= q < p.len() && p[q] == x;
        assert(seq![x][0] == x);
        assert(seq![x].contains(x));
        if x is Conflict {
            let j = conflict_row(start, x);
            assert(rows[j].key == key);
            if i < j {
                assert(rows[i].key != rows[j].key);
            } else if j < i {
                assert(rows[j].key != rows[i].key);
            }
        } else {
            assert(subject(x) == Some(key));
            let (j, _m) = position_origin(options, local, remote, state, q);
            rows_act_once(options, remote, rows, j, x);
            if i < j {
                assert(rows[i].key != rows[j].key);
            } else if j < i {
                assert(rows[j].key != rows[i].key);
            }
        }
    }
}

proof fn initial_notes_are_skips(start: Start)
    requires
        start.is_sound(),
    ensures
        ({
            let notes = start.remote.skips + tracked_notes(
                start.remote.docs,
                start.remote.docs.len(),
                start.state,
            );
            forall|k: int| 0 <= k < notes.len() ==> (#[trigger] notes[k]) is Skip
        }),
{
    let remarks = tracked_notes(start.remote.docs, start.remote.docs.len(), start.state);
    tracked_notes_are_remarks(start.remote.docs, start.remote.docs.len(), start.state);
    let notes = start.remote.skips + remarks;
    assert forall|k: int| 0 <= k < notes.len() implies (#[trigger] notes[k]) is Skip by {
        if k < start.remote.skips.len() {
            assert(notes[k] == start.remote.skips[k]);
        } else {
            assert(notes[k] == remarks[k - start.remote.skips.len()]);
        }
    }
}

proof fn tracked_notes_are_remarks(docs: Seq<RemoteView>, n: nat, state: Seq<(Seq<char>, StateView)>)
    ensures
        forall|i: int|
            0 <= i < tracked_notes(docs, n, state).len() ==> (#[trigger] tracked_notes(
                docs,
                n,
                state,
            )[i]) is Skip,
    decreases n,
{
    if n > 0 {
        tracked_notes_are_remarks(docs, (n - 1) as nat, state);
    }
}

/// What is known of a mapped path, as its row tells it.
proof fn mapped_row(
    start: Start,
    path: Seq<char>,
    st: StateView,
    file: Option<LocalView>,
    doc: Option<RemoteView>,
) -> (i: int)
    requires
        start.is_sound(),
        start.maps(path, st),
        match file {
            Some(f) => start.has_file(path, f),
            None => start.lacks_file(path),
        },
        match doc {
            Some(d) => start.has_document(st.uuid, d),
            None => start.lacks_document(st.uuid),
        },
    ensures
        0 <= i < plan_rows(start.local, start.remote.docs, start.state).len(),
        plan_rows(start.local, start.remote.docs, start.state)[i] == (RowView {
            key: path,
            st: Some(st),
            entry: file,
            doc,
        }),
{
    let k = choose|k: int| 0 <= k < start.state.len() && #[trigger] start.state[k] == (path, st);
    value_of_at(start.state, k);
    match file {
        Some(f) => {
            let m = choose|m: int| 0 <= m < start.local.len() && #[trigger] start.local[m] == f;
            file_is_found(start.local, m);
        },
        None => {
            file_is_missed(start.local, path);
        },
    }
    match doc {
        Some(d) => {
            let m = choose|m: int|
                0 <= m < start.remote.docs.len() && #[trigger] start.remote.docs[m] == d;
            doc_with_at(start.remote.docs, m);
        },
        None => {
            doc_with_has_uuid(start.remote.docs, st.uuid);
            if doc_with(start.remote.docs, st.uuid) is Some {
                let d = doc_with(start.remote.docs, st.uuid)->Some_0;
                let m = choose|m: int| 0 <= m < start.remote.docs.len() && start.remote.docs[m] == d;
                assert(start.remote.docs[m].uuid == st.uuid);
            }
        },
    }
    row_for(start.local, start.remote.docs, start.state, path)
}

/// What is known of an unmapped path, as its row tells it.
proof fn unmapped_row(
    start: Start,
    path: Seq<char>,
    file: Option<LocalView>,
    doc: Option<RemoteView>,
) -> (i: int)
    requires
        start.is_sound(),
        start.is_unmapped(path),
        file is Some || doc is Some,
        match file {
            Some(f) => start.has_file(path, f),
            None => start.lacks_file(path),
        },
        match doc {
            Some(d) => start.has_loose(path, d),
            None => start.lacks_loose(path),
        },
    ensures
        0 <= i < plan_rows(start.local, start.remote.docs, start.state).len(),
        plan_rows(start.local, start.remote.docs, start.state)[i] == (RowView {
            key: path,
            st: None,
            entry: file,
            doc,
        }),
{
    mapping_is_missed(start.state, path);
    match file {
        Some(f) => {
            let m = choose|m: int| 0 <= m < start.local.len() && #[trigger] start.local[m] == f;
            file_is_found(start.local, m);
        },
        None => {
            file_is_missed(start.local, path);
        },
    }
    let docs = start.remote.docs;
    loose_doc_is_loose(docs, 0, start.state, path);
    match doc {
        Some(d) => {
            let m = choose|m: int| 0 <= m < docs.len() && #[trigger] docs[m] == d;
            assert(!is_mapped(start.state, d.uuid));
            loose_path_is_listed(docs, docs.len(), start.state, m);
            assert forall|q: int| 0 <= q < m implies is_mapped(
                start.state,
                (#[trigger] docs[q]).uuid,
            ) || docs[q].local_path() != docs[m].local_path() by {
                assert(docs[q].uuid != docs[m].uuid);
                if docs[q].local_path() == path && !start.names(docs[q].uuid) {
                    assert(docs[q] == d);
                }
            }
            first_loose_document(docs, 0, start.state, m);
        },
        None => {
            if loose_doc(docs, 0, start.state, path) is Some {
                let d = loose_doc(docs, 0, start.state, path)->Some_0;
                let m = choose|m: int| 0 <= m < docs.len() && docs[m] == d;
                assert(docs[m].local_path() == path);
                assert(start.names(docs[m].uuid));
            }
        },
    }
    row_for(start.local, docs, start.state, path)
}

/// What the plan does about the path of a row.
proof fn rows_lead_to_actions(start: Start, i: int)
    requires
        start.is_sound(),
        0 <= i < plan_rows(start.local, start.remote.docs, start.state).len(),
    ensures
        ({
            let rows = plan_rows(start.local, start.remote.docs, start.state);
            let row = rows[i];
            let key = row.key;
            let plan = start.plan();
            let taken = is_taken(start.remote, target_of(key));
            let shared = rivals(rows, rows.len(), target_of(key)) > 1;
            match row_decision(start.options, row) {
                Decision::Nothing => does_nothing(plan, key),
                Decision::Upload => if taken {
                    only_says(
                        plan,
                        key,
                        "an item with this name already exists on the device (no sync state to match it)"@,
                    )
                } else if shared {
                    only_says(plan, key, "multiple local files map to the same device name"@)
                } else {
                    does_only(
                        plan,
                        key,
                        ActionView::Upload {
                            local: key,
                            kind: row.entry->Some_0.kind,
                            remote_dir: target_of(key).0,
                            name: target_of(key).1,
                        },
                    )
                },
                Decision::Update => does_only(
                    plan,
                    key,
                    ActionView::UpdateRemote {
                        local: key,
                        kind: row.entry->Some_0.kind,
                        uuid: match row.st {
                            Some(st) => st.uuid,
                            None => row.doc->Some_0.uuid,
                        },
                    },
                ),
                Decision::Download => does_only(
                    plan,
                    key,
                    ActionView::Download {
                        local: key,
                        uuid: row.doc->Some_0.uuid,
                        doc_type: row.doc->Some_0.doc_type,
                        size_bytes: row.doc->Some_0.size_bytes,
                        last_modified: row.doc->Some_0.last_modified,
                    },
                ),
                Decision::DeleteRemote => does_only(
                    plan,
                    key,
                    ActionView::DeleteRemote { path: key, uuid: row.doc->Some_0.uuid },
                ),
                Decision::DeleteLocal => does_only(
                    plan,
                    key,
                    ActionView::DeleteLocal { path: key },
                ),
                Decision::Forget => does_only(plan, key, ActionView::Forget { path: key }),
                Decision::Release(note) => does_only(plan, key, ActionView::Forget { path: key })
                    && plan.contains(ActionView::Skip { path: key, reason: note.text() }),
                Decision::Conflict(note) => reports_conflict(plan, key, note.text()),
                Decision::Skip(note) => only_says(plan, key, note.text()),
            }
        }),
{
    rows_are_planned(start, i);
    let rows = plan_rows(start.local, start.remote.docs, start.state);
    let row = rows[i];
    let one = row_buckets(start.options, start.remote, rows, i);
    let plan = start.plan();
    if one.transfers.len() > 0 {
        assert(one.transfers.contains(one.transfers[0]));
        assert(plan.contains(one.transfers[0]));
    }
    if one.deletes.len() > 0 {
        assert(one.deletes.contains(one.deletes[0]));
        assert(plan.contains(one.deletes[0]));
    }
    if one.forgets.len() > 0 {
        assert(one.forgets.contains(one.forgets[0]));
        assert(plan.contains(one.forgets[0]));
    }
    if one.notes.len() > 0 {
        assert(one.notes.contains(one.notes[0]));
        assert(plan.contains(one.notes[0]));
    }
}

/// The version that wins a conflict, where the policy lets one win: the local one by preference, or
/// by being at least as new.
pub open spec fn local_wins(policy: ConflictPolicy, local_ms: int, remote_ms: int) -> bool {
    policy == ConflictPolicy::PreferLocal || policy == ConflictPolicy::Newest && local_ms
        >= remote_ms
}

/// The version that wins a conflict, where the policy lets one win: the device's by preference, or
/// by being newer.
pub open spec fn remote_wins(policy: ConflictPolicy, local_ms: int, remote_ms: int) -> bool {
    policy == ConflictPolicy::PreferRemote || policy == ConflictPolicy::Newest && local_ms
        < remote_ms
}

/// The download of a document to a path.
pub open spec fn fetches(path: Seq<char>, doc: RemoteView) -> ActionView {
    ActionView::Download {
        local: path,
        uuid: doc.uuid,
        doc_type: doc.doc_type,
        size_bytes: doc.size_bytes,
        last_modified: doc.last_modified,
    }
}

/// A mapped file that has neither changed in size nor in time, and whose document has not changed
/// either, is left alone, in every mode and whatever else is asked for.
pub proof fn unchanged_paths_are_left_alone(
    start: Start,
    path: Seq<char>,
    st: StateView,
    file: LocalView,
    doc: RemoteView,
)
    requires
        start.is_sound(),
        start.maps(path, st),
        start.has_file(path, file),
        start.has_document(st.uuid, doc),
        file.size == st.local_size,
        file.mtime_ms == st.local_mtime_ms,
        doc.last_modified == st.remote_last_modified,
    ensures
        does_nothing(start.plan(), path),
{
    let i = mapped_row(start, path, st, Some(file), Some(doc));
    rows_lead_to_actions(start, i);
}

/// A mapped file that changed in size or in time, while its document did not, is pushed over the
/// document, one-way or both ways. A bundle is not: the handwriting on the tablet wins. A pull does
/// not push: it takes such a file for a changed destination, but for texts, which change here.
pub proof fn changed_files_are_pushed(
    start: Start,
    path: Seq<char>,
    st: StateView,
    file: LocalView,
    doc: RemoteView,
)
    requires
        start.is_sound(),
        start.maps(path, st),
        start.has_file(path, file),
        start.has_document(st.uuid, doc),
        file.size != st.local_size || file.mtime_ms != st.local_mtime_ms,
        doc.last_modified == st.remote_last_modified,
    ensures
        start.options.mode != Mode::Pull && st.kind != DocKind::Rmdoc ==> does_only(
            start.plan(),
            path,
            ActionView::UpdateRemote { local: path, kind: file.kind, uuid: st.uuid },
        ),
        start.options.mode != Mode::Pull && st.kind == DocKind::Rmdoc ==> only_says(
            start.plan(),
            path,
            "mapped .rmdoc files are pull-only (the tablet's ink wins)"@,
        ),
        start.options.mode == Mode::Pull && (st.kind == DocKind::Markdown || st.kind
            == DocKind::Text) ==> does_nothing(start.plan(), path),
        start.options.mode == Mode::Pull && st.kind != DocKind::Markdown && st.kind != DocKind::Text
            ==> {
            let policy = start.options.conflict;
            let here = file.mtime_ms as int;
            let there = doc.last_modified as int;
            &&& policy == ConflictPolicy::Skip ==> reports_conflict(
                start.plan(),
                path,
                "destination changed since last sync"@,
            )
            &&& remote_wins(policy, here, there) ==> does_only(start.plan(), path, fetches(path, doc))
            &&& local_wins(policy, here, there) ==> does_nothing(start.plan(), path)
        },
{
    let i = mapped_row(start, path, st, Some(file), Some(doc));
    rows_lead_to_actions(start, i);
}

/// A document that changed, while its file did not, is pulled over the file, one-way or both ways.
/// What was imported from a text cannot be pulled, and a push leaves the document to the tablet.
pub proof fn changed_documents_are_pulled(
    start: Start,
    path: Seq<char>,
    st: StateView,
    file: LocalView,
    doc: RemoteView,
)
    requires
        start.is_sound(),
        start.maps(path, st),
        start.has_file(path, file),
        start.has_document(st.uuid, doc),
        file.size == st.local_size && file.mtime_ms == st.local_mtime_ms,
        doc.last_modified != st.remote_last_modified,
    ensures
        start.options.mode != Mode::Push && st.kind != DocKind::Markdown && st.kind != DocKind::Text
            ==> does_only(start.plan(), path, fetches(path, doc)),
        start.options.mode != Mode::Push && (st.kind == DocKind::Markdown || st.kind
            == DocKind::Text) ==> only_says(
            start.plan(),
            path,
            "text import; device-side changes are not pulled"@,
        ),
        start.options.mode == Mode::Push ==> does_nothing(start.plan(), path),
{
    let i = mapped_row(start, path, st, Some(file), Some(doc));
    rows_lead_to_actions(start, i);
}

/// Where both sides changed, the policy decides: by default the path is reported and left alone;
/// else the winner is copied over the other, if the mode may write that side.
pub proof fn changes_on_both_sides_go_by_policy(
    start: Start,
    path: Seq<char>,
    st: StateView,
    file: LocalView,
    doc: RemoteView,
)
    requires
        start.is_sound(),
        start.maps(path, st),
        start.has_file(path, file),
        start.has_document(st.uuid, doc),
        file.size != st.local_size || file.mtime_ms != st.local_mtime_ms,
        doc.last_modified != st.remote_last_modified,
    ensures
        ({
            let policy = start.options.conflict;
            let here = file.mtime_ms as int;
            let there = doc.last_modified as int;
            let mode = start.options.mode;
            let is_text = st.kind == DocKind::Markdown || st.kind == DocKind::Text;
            &&& policy == ConflictPolicy::Skip ==> reports_conflict(
                start.plan(),
                path,
                "both sides changed since last sync"@,
            )
            &&& local_wins(policy, here, there) && mode != Mode::Pull && st.kind != DocKind::Rmdoc
                ==> does_only(
                start.plan(),
                path,
                ActionView::UpdateRemote { local: path, kind: file.kind, uuid: st.uuid },
            )
            &&& local_wins(policy, here, there) && mode != Mode::Pull && st.kind == DocKind::Rmdoc
                ==> only_says(
                start.plan(),
                path,
                "mapped .rmdoc files are pull-only (the tablet's ink wins)"@,
            )
            &&& local_wins(policy, here, there) && mode == Mode::Pull ==> does_nothing(
                start.plan(),
                path,
            )
            &&& remote_wins(policy, here, there) && mode != Mode::Push && !is_text ==> does_only(
                start.plan(),
                path,
                fetches(path, doc),
            )
            &&& remote_wins(policy, here, there) && mode != Mode::Push && is_text
                ==> reports_conflict(
                start.plan(),
                path,
                "resolved to the device side, but device-side changes cannot be pulled into a text import"@,
            )
            &&& remote_wins(policy, here, there) && mode == Mode::Push ==> does_nothing(
                start.plan(),
                path,
            )
        }),
{
    let i = mapped_row(start, path, st, Some(file), Some(doc));
    rows_lead_to_actions(start, i);
}

/// Whether the device has room for an upload: no document and no folder has the name in that
/// directory.
pub open spec fn is_free(remote: SnapshotView, dir: Seq<char>, name: Seq<char>) -> bool {
    &&& forall|i: int|
        0 <= i < remote.docs.len() ==> !((#[trigger] remote.docs[i]).rel_dir == dir
            && remote.docs[i].name == name)
    &&& forall|i: int|
        0 <= i < remote.folders.len() ==> (#[trigger] remote.folders[i]).0 != dir + seq!['/'] + name
            && (dir.len() == 0 ==> remote.folders[i].0 != name)
}

/// The relative path of a file: its directory, its name, and its extension.
pub open spec fn file_path(dir: Seq<char>, name: Seq<char>, ext: Seq<char>) -> Seq<char> {
    if dir.len() == 0 {
        name + seq!['.'] + ext
    } else {
        dir + seq!['/'] + name + seq!['.'] + ext
    }
}

/// Whether a name and an extension are what a file path can be put together from.
pub open spec fn can_name(name: Seq<char>, ext: Seq<char>) -> bool {
    &&& name.len() > 0
    &&& ext.len() > 0
    &&& !name.contains('/')
    &&& !ext.contains('/')
    &&& !ext.contains('.')
}

proof fn find_last_at(s: Seq<char>, c: char, at: int)
    requires
        0 <= at < s.len(),
        s[at] == c,
        forall|i: int| at < i < s.len() ==> s[i] != c,
    ensures
        find_last(s, Class::Only(c)) == at,
{
    let k = Class::Only(c);
    find_last_is_last(s, k);
    let found = find_last(s, k);
    assert(k.holds(s[at]));
    if found > at {
        assert(k.holds(s[found]));
    }
}

proof fn find_last_nowhere(s: Seq<char>, c: char)
    requires
        !s.contains(c),
    ensures
        find_last(s, Class::Only(c)) < 0,
{
    let k = Class::Only(c);
    find_last_is_last(s, k);
    let found = find_last(s, k);
    if found >= 0 {
        assert(k.holds(s[found]));
        assert(s[found] == c);
    }
}

/// A local file goes to the directory of the same path on the device, under its name without the
/// extension.
pub proof fn uploads_keep_their_place(dir: Seq<char>, name: Seq<char>, ext: Seq<char>)
    requires
        can_name(name, ext),
    ensures
        target_of(file_path(dir, name, ext)) == (dir, name),
{
    let path = file_path(dir, name, ext);
    let file = name + seq!['.'] + ext;
    assert forall|i: int| 0 <= i < file.len() implies file[i] != '/' by {
        if i < name.len() {
            assert(name.contains(name[i]));
        } else if i > name.len() {
            assert(ext.contains(ext[i - name.len() - 1]));
        }
    }
    assert forall|i: int| name.len() < i < file.len() implies file[i] != '.' by {
        assert(ext.contains(ext[i - name.len() - 1]));
    }
    find_last_at(file, '.', name.len() as int);
    assert(file.take(name.len() as int) =~= name);
    assert(file.len() > 2 || ext.len() == 1 && name.len() == 1);
    if file == seq!['.', '.'] {
        assert(file.len() == 2);
    }
    if dir.len() == 0 {
        if path.contains('/') {
            let i = choose|i: int| 0 <= i < path.len() && path[i] == '/';
            assert(file[i] == '/');
        }
        find_last_nowhere(path, '/');
        assert(dir =~= Seq::empty());
    } else {
        assert forall|i: int| dir.len() < i < path.len() implies path[i] != '/' by {
            assert(path[i] == file[i - dir.len() - 1]);
        }
        find_last_at(path, '/', dir.len() as int);
        assert(path.take(dir.len() as int) =~= dir);
        assert(path.skip(dir.len() as int + 1) =~= file);
    }
}

proof fn split_paths_go_together(path: Seq<char>, dir: Seq<char>, name: Seq<char>)
    requires
        split_dir(path) == (dir, name),
    ensures
        path == dir + seq!['/'] + name || dir.len() == 0 && path == name,
{
    find_last_is_last(path, Class::Only('/'));
    let at = find_last(path, Class::Only('/'));
    if at >= 0 {
        assert(Class::Only('/').holds(path[at]));
        assert(path =~= dir + seq!['/'] + name);
    }
}

proof fn free_names_are_not_taken(remote: SnapshotView, dir: Seq<char>, name: Seq<char>)
    requires
        is_free(remote, dir, name),
    ensures
        !is_taken(remote, (dir, name)),
{
    if exists|i: int|
        0 <= i < remote.folders.len() && (#[trigger] remote.folders[i]).0.len() > 0 && split_dir(
            remote.folders[i].0,
        ) == (dir, name) {
        let i = choose|i: int|
            0 <= i < remote.folders.len() && (#[trigger] remote.folders[i]).0.len() > 0
                && split_dir(remote.folders[i].0) == (dir, name);
        split_paths_go_together(remote.folders[i].0, dir, name);
    }
}

proof fn lone_rows_have_no_rivals(
    rows: Seq<RowView>,
    n: nat,
    i: int,
    target: (Seq<char>, Seq<char>),
)
    requires
        n <= rows.len(),
        forall|m: int|
            0 <= m < rows.len() && m != i ==> !(is_candidate(#[trigger] rows[m]) && target_of(
                rows[m].key,
            ) == target),
    ensures
        rivals(rows, n, target) <= 1,
        i >= n ==> rivals(rows, n, target) == 0,
    decreases n,
{
    if n > 0 {
        lone_rows_have_no_rivals(rows, (n - 1) as nat, i, target);
        if n - 1 != i {
            assert(!(is_candidate(rows[n - 1]) && target_of(rows[n - 1].key) == target));
        }
    }
}

/// Whether no other local file goes to the same name.
pub open spec fn is_alone(
    local: Seq<LocalView>,
    path: Seq<char>,
    dir: Seq<char>,
    name: Seq<char>,
) -> bool {
    forall|i: int|
        0 <= i < local.len() && (#[trigger] local[i]).rel_path != path ==> target_of(
            local[i].rel_path,
        ) != (dir, name)
}

/// Whether a file is uploaded as a new document, where its name is free on the device and no other
/// file goes there; and is left alone with a remark where a document has the name.
pub open spec fn is_sent(
    start: Start,
    file: LocalView,
    dir: Seq<char>,
    name: Seq<char>,
) -> bool {
    let path = file.rel_path;
    &&& is_free(start.remote, dir, name) && is_alone(start.local, path, dir, name) ==> does_only(
        start.plan(),
        path,
        ActionView::Upload { local: path, kind: file.kind, remote_dir: dir, name },
    )
    &&& (exists|i: int|
        0 <= i < start.remote.docs.len() && (#[trigger] start.remote.docs[i]).rel_dir == dir
            && start.remote.docs[i].name == name) ==> only_says(
        start.plan(),
        path,
        "an item with this name already exists on the device (no sync state to match it)"@,
    )
}

proof fn upload_rows_are_sent(
    start: Start,
    i: int,
    file: LocalView,
    dir: Seq<char>,
    name: Seq<char>,
)
    requires
        start.is_sound(),
        0 <= i < plan_rows(start.local, start.remote.docs, start.state).len(),
        ({
            let row = plan_rows(start.local, start.remote.docs, start.state)[i];
            &&& row.entry == Some(file)
            &&& row.key == file.rel_path
            &&& row_decision(start.options, row) == Decision::Upload
            &&& target_of(row.key) == (dir, name)
        }),
    ensures
        is_sent(start, file, dir, name),
{
    let rows = plan_rows(start.local, start.remote.docs, start.state);
    let path = file.rel_path;
    rows_lead_to_actions(start, i);
    if is_free(start.remote, dir, name) && is_alone(start.local, path, dir, name) {
        free_names_are_not_taken(start.remote, dir, name);
        plan_rows_have_distinct_keys(start.local, start.remote.docs, start.state);
        assert forall|m: int| 0 <= m < rows.len() && m != i implies !(is_candidate(
            #[trigger] rows[m],
        ) && target_of(rows[m].key) == (dir, name)) by {
            assert(rows[m] == row_of(start.local, start.remote.docs, start.state, rows[m].key));
            if is_candidate(rows[m]) {
                found_files_have_the_path(start.local, rows[m].key);
                let f = rows[m].entry->Some_0;
                let k = choose|k: int| 0 <= k < start.local.len() && start.local[k] == f;
                assert(start.local[k].rel_path == rows[m].key);
                if m < i {
                    assert(rows[m].key != rows[i].key);
                } else {
                    assert(rows[i].key != rows[m].key);
                }
            }
        }
        lone_rows_have_no_rivals(rows, rows.len(), i, (dir, name));
    }
}

proof fn found_files_have_the_path(local: Seq<LocalView>, path: Seq<char>)
    ensures
        local_at(local, path) matches Some(f) ==> f.rel_path == path && local.contains(f),
    decreases local.len(),
{
    if local.len() > 0 {
        let rest = local.drop_last();
        found_files_have_the_path(rest, path);
        if local.last().rel_path == path {
            assert(local[local.len() - 1] == local.last());
        } else if local_at(rest, path) is Some {
            let f = local_at(rest, path)->Some_0;
            let k = choose|k: int| 0 <= k < rest.len() && rest[k] == f;
            assert(local[k] == f);
        }
    }
}

/// A file that is new on this side, and that the device does not have, is uploaded as a new document
/// of the same directory and name, unless the sync only pulls.
pub proof fn new_files_are_uploaded(
    start: Start,
    file: LocalView,
    dir: Seq<char>,
    name: Seq<char>,
    ext: Seq<char>,
)
    requires
        start.is_sound(),
        can_name(name, ext),
        file.rel_path == file_path(dir, name, ext),
        start.is_unmapped(file.rel_path),
        start.has_file(file.rel_path, file),
        start.lacks_loose(file.rel_path),
    ensures
        start.options.mode != Mode::Pull ==> is_sent(start, file, dir, name),
        start.options.mode == Mode::Pull ==> does_nothing(start.plan(), file.rel_path),
{
    let i = unmapped_row(start, file.rel_path, Some(file), None);
    rows_lead_to_actions(start, i);
    uploads_keep_their_place(dir, name, ext);
    if start.options.mode != Mode::Pull {
        upload_rows_are_sent(start, i, file, dir, name);
    }
}

/// A document that is new on the device, and that this side does not have, is downloaded to its path,
/// unless the sync only pushes.
pub proof fn new_documents_are_downloaded(start: Start, path: Seq<char>, doc: RemoteView)
    requires
        start.is_sound(),
        start.is_unmapped(path),
        start.lacks_file(path),
        start.has_loose(path, doc),
    ensures
        start.options.mode != Mode::Push ==> does_only(start.plan(), path, fetches(path, doc)),
        start.options.mode == Mode::Push ==> does_nothing(start.plan(), path),
{
    let i = unmapped_row(start, path, None, Some(doc));
    rows_lead_to_actions(start, i);
}

/// A file and a document that meet at one path without a mapping are told apart by the policy: by
/// default they are reported and left alone. The file goes over the document only if both are PDFs
/// or both are EPUBs; the document goes over the file. Either needs a mode that may write that side.
pub proof fn collisions_go_by_policy(start: Start, path: Seq<char>, file: LocalView, doc: RemoteView)
    requires
        start.is_sound(),
        start.is_unmapped(path),
        start.has_file(path, file),
        start.has_loose(path, doc),
    ensures
        ({
            let policy = start.options.conflict;
            let here = file.mtime_ms as int;
            let there = doc.last_modified as int;
            let mode = start.options.mode;
            let same_type = file.kind == DocKind::Pdf && doc.doc_type == RemoteType::Pdf || file.kind
                == DocKind::Epub && doc.doc_type == RemoteType::Epub;
            &&& policy == ConflictPolicy::Skip ==> reports_conflict(
                start.plan(),
                path,
                "exists on both sides (no sync state to match them)"@,
            )
            &&& local_wins(policy, here, there) && mode != Mode::Pull && same_type ==> does_only(
                start.plan(),
                path,
                ActionView::UpdateRemote { local: path, kind: file.kind, uuid: doc.uuid },
            )
            &&& local_wins(policy, here, there) && mode != Mode::Pull && !same_type
                ==> reports_conflict(
                start.plan(),
                path,
                "cannot overwrite the device copy (handwriting or mismatched types)"@,
            )
            &&& local_wins(policy, here, there) && mode == Mode::Pull ==> does_nothing(
                start.plan(),
                path,
            )
            &&& remote_wins(policy, here, there) && mode != Mode::Push ==> does_only(
                start.plan(),
                path,
                fetches(path, doc),
            )
            &&& remote_wins(policy, here, there) && mode == Mode::Push ==> does_nothing(
                start.plan(),
                path,
            )
        }),
{
    let i = unmapped_row(start, path, Some(file), Some(doc));
    rows_lead_to_actions(start, i);
}

/// A mapped document that vanished from the device: a push, and a two-way sync that does not delete,
/// upload the file again. Otherwise a file is deleted only if deletion was asked for and the file
/// did not change; a changed file goes by the policy.
pub proof fn vanished_documents_are_copied_again_or_deleted(
    start: Start,
    st: StateView,
    file: LocalView,
    dir: Seq<char>,
    name: Seq<char>,
    ext: Seq<char>,
)
    requires
        start.is_sound(),
        can_name(name, ext),
        file.rel_path == file_path(dir, name, ext),
        start.maps(file.rel_path, st),
        start.has_file(file.rel_path, file),
        start.lacks_document(st.uuid),
    ensures
        ({
            let path = file.rel_path;
            let policy = start.options.conflict;
            let mode = start.options.mode;
            let delete = start.options.delete;
            let changed = file.size != st.local_size || file.mtime_ms != st.local_mtime_ms;
            let here = file.mtime_ms as int;
            let there = i64::MIN as int;
            &&& mode == Mode::Push || mode == Mode::TwoWay && !delete ==> is_sent(
                start,
                file,
                dir,
                name,
            )
            &&& mode == Mode::Pull && !delete ==> does_nothing(start.plan(), path)
            &&& mode != Mode::Push && delete && !changed ==> does_only(
                start.plan(),
                path,
                ActionView::DeleteLocal { path },
            )
            &&& mode != Mode::Push && delete && changed ==> {
                &&& policy == ConflictPolicy::Skip ==> reports_conflict(
                    start.plan(),
                    path,
                    "deleted on the device but changed locally"@,
                )
                &&& remote_wins(policy, here, there) ==> does_only(
                    start.plan(),
                    path,
                    ActionView::DeleteLocal { path },
                )
                &&& local_wins(policy, here, there) && mode == Mode::TwoWay ==> is_sent(
                    start,
                    file,
                    dir,
                    name,
                )
                &&& local_wins(policy, here, there) && mode == Mode::Pull ==> does_only(
                    start.plan(),
                    path,
                    ActionView::Forget { path },
                )
            }
        }),
{
    let i = mapped_row(start, file.rel_path, st, Some(file), None);
    rows_lead_to_actions(start, i);
    uploads_keep_their_place(dir, name, ext);
    let row = plan_rows(start.local, start.remote.docs, start.state)[i];
    if row_decision(start.options, row) == Decision::Upload {
        upload_rows_are_sent(start, i, file, dir, name);
    }
}

/// A mapped file that vanished here: a pull, and a two-way sync that does not delete, download the
/// document again. Otherwise a document is deleted only if deletion was asked for and the document
/// did not change; a changed document goes by the policy.
pub proof fn vanished_files_are_copied_again_or_deleted(
    start: Start,
    path: Seq<char>,
    st: StateView,
    doc: RemoteView,
)
    requires
        start.is_sound(),
        start.maps(path, st),
        start.lacks_file(path),
        start.has_document(st.uuid, doc),
    ensures
        ({
            let policy = start.options.conflict;
            let mode = start.options.mode;
            let delete = start.options.delete;
            let changed = doc.last_modified != st.remote_last_modified;
            let here = i64::MIN as int;
            let there = doc.last_modified as int;
            &&& mode == Mode::Pull || mode == Mode::TwoWay && !delete ==> does_only(
                start.plan(),
                path,
                fetches(path, doc),
            )
            &&& mode == Mode::Push && !delete ==> does_nothing(start.plan(), path)
            &&& mode != Mode::Pull && delete && !changed ==> does_only(
                start.plan(),
                path,
                ActionView::DeleteRemote { path, uuid: st.uuid },
            )
            &&& mode != Mode::Pull && delete && changed ==> {
                &&& policy == ConflictPolicy::Skip ==> reports_conflict(
                    start.plan(),
                    path,
                    "deleted locally but changed on the device"@,
                )
                &&& local_wins(policy, here, there) ==> does_only(
                    start.plan(),
                    path,
                    ActionView::DeleteRemote { path, uuid: st.uuid },
                )
                &&& remote_wins(policy, here, there) && mode == Mode::TwoWay ==> does_only(
                    start.plan(),
                    path,
                    fetches(path, doc),
                )
                &&& remote_wins(policy, here, there) && mode == Mode::Push ==> does_only(
                    start.plan(),
                    path,
                    ActionView::Forget { path },
                )
            }
        }),
{
    let i = mapped_row(start, path, st, None, Some(doc));
    rows_lead_to_actions(start, i);
}

/// A mapping whose file and document are both gone is forgotten, in every mode.
pub proof fn vanished_pairs_are_forgotten(start: Start, path: Seq<char>, st: StateView)
    requires
        start.is_sound(),
        start.maps(path, st),
        start.lacks_file(path),
        start.lacks_document(st.uuid),
    ensures
        does_only(start.plan(), path, ActionView::Forget { path }),
{
    let i = mapped_row(start, path, st, None, None);
    rows_lead_to_actions(start, i);
}

/// A plan speaks of nothing but what there is: every path in it is mapped, is that of a local file,
/// is where an unmapped document would go, or stands in a remark of the snapshot.
pub proof fn plans_are_about_what_there_is(start: Start, x: ActionView)
    requires
        start.is_sound(),
        start.plan().contains(x),
        about(x) is Some,
        !(x is Skip),
    ensures
        ({
            let path = about(x)->Some_0;
            ||| !start.is_unmapped(path)
            ||| !start.lacks_file(path)
            ||| !start.lacks_loose(path)
        }),
{
    let rows = plan_rows(start.local, start.remote.docs, start.state);
    let p = start.plan();
    let q = choose|q: int| 0 <= q < p.len() && p[q] == x;
    let path = about(x)->Some_0;
    let j = if x is Conflict {
        conflict_row(start, x)
    } else {
        let (j, _m) = position_origin(
            start.options,
            start.local,
            start.remote,
            start.state,
            q,
        );
        rows_act_once(start.options, start.remote, rows, j, x);
        j
    };
    assert(rows[j].key == path);
    let one = row_buckets(start.options, start.remote, rows, j);
    assert(rows[j] == row_of(start.local, start.remote.docs, start.state, path));
    assert(one.transfers.len() + one.deletes.len() + one.forgets.len() + one.notes.len() > 0) by {
        assert(seq![x].len() == 1);
    }
    assert(row_decision(start.options, rows[j]) != Decision::Nothing);
    if start.is_unmapped(path) {
        mapping_is_missed(start.state, path);
    }
    if start.lacks_file(path) {
        file_is_missed(start.local, path);
    }
    if start.lacks_loose(path) {
        loose_doc_is_loose(start.remote.docs, 0, start.state, path);
        if loose_doc(start.remote.docs, 0, start.state, path) is Some {
            let d = loose_doc(start.remote.docs, 0, start.state, path)->Some_0;
            let m = choose|m: int| 0 <= m < start.remote.docs.len() && start.remote.docs[m] == d;
            assert(start.names(start.remote.docs[m].uuid));
        }
    }
}

proof fn conflict_row(start: Start, x: ActionView) -> (j: int)
    requires
        start.is_sound(),
        start.plan().contains(x),
        x is Conflict,
    ensures
        0 <= j < plan_rows(start.local, start.remote.docs, start.state).len(),
        plan_rows(start.local, start.remote.docs, start.state)[j].key == about(x)->Some_0,
        row_buckets(
            start.options,
            start.remote,
            plan_rows(start.local, start.remote.docs, start.state),
            j,
        ).notes == seq![x],
{
    let options = start.options;
    let remote = start.remote;
    let rows = plan_rows(start.local, remote.docs, start.state);
    let p = start.plan();
    let notes = remote.skips + tracked_notes(remote.docs, remote.docs.len(), start.state);
    let b = plan_buckets(options, start.local, remote, start.state);
    let c = creations(sort_dedup(needed_dirs(b.transfers, b.transfers.len(), remote.folders)));
    let n1 = c.len() + b.transfers.len();
    let n2 = n1 + b.deletes.len();
    let n3 = n2 + b.forgets.len();
    let q = choose|q: int| 0 <= q < p.len() && p[q] == x;
    planned_parts(options, start.local, remote, start.state);
    if q < c.len() {
        assert(p[q] == c[q]);
    } else if q < n1 {
        assert(p[q] == b.transfers[q - c.len()]);
        assert(stage(b.transfers[q - c.len()]) == 1);
    } else if q < n2 {
        assert(p[q] == b.deletes[q - n1]);
        assert(stage(b.deletes[q - n1]) == 2);
    } else if q < n3 {
        assert(p[q] == b.forgets[q - n2]);
        assert(stage(b.forgets[q - n2]) == 3);
    }
    assert(b.notes[q - n3] == x);
    assert(b.notes.contains(x));
    initial_notes_are_skips(start);
    let j = conflict_origin(options, remote, rows, rows.len(), notes, x);
    let one = row_buckets(options, remote, rows, j);
    assert(one.notes[0] == x);
    match row_decision(options, rows[j]) {
        Decision::Conflict(note) => {
            assert(one.notes[0] == (ActionView::Conflict { path: rows[j].key, reason: note.text() }));
        },
        Decision::Upload => {
            assert(one.notes.len() > 0 ==> one.notes[0] is Skip);
        },
        Decision::Release(_) => {
            assert(one.notes[0] is Skip);
        },
        Decision::Skip(_) => {
            assert(one.notes[0] is Skip);
        },
        _ => {
            assert(one.notes.len() == 0);
        },
    }
    j
}

/// A document is pulled to the path of its directory and name, with the extension of its type:
/// notebooks come as bundles.
pub proof fn documents_keep_their_place(doc: RemoteView)
    ensures
        doc.local_path() == file_path(
            doc.rel_dir,
            doc.name,
            match doc.doc_type {
                RemoteType::Pdf => seq!['p', 'd', 'f'],
                RemoteType::Epub => seq!['e', 'p', 'u', 'b'],
                RemoteType::Notebook => seq!['r', 'm', 'd', 'o', 'c'],
            },
        ),
{
    reveal_strlit(".");
    reveal_strlit("/");
    reveal_strlit("pdf");
    reveal_strlit("epub");
    reveal_strlit("rmdoc");
    assert("pdf"@ =~= seq!['p', 'd', 'f']);
    assert("epub"@ =~= seq!['e', 'p', 'u', 'b']);
    assert("rmdoc"@ =~= seq!['r', 'm', 'd', 'o', 'c']);
    assert("."@ =~= seq!['.']);
    assert("/"@ =~= seq!['/']);
    let ext = match doc.doc_type {
        RemoteType::Pdf => seq!['p', 'd', 'f'],
        RemoteType::Epub => seq!['e', 'p', 'u', 'b'],
        RemoteType::Notebook => seq!['r', 'm', 'd', 'o', 'c'],
    };
    assert(doc.local_path() =~= file_path(doc.rel_dir, doc.name, ext));
}

proof fn first_notes_stay(
    options: SyncOptions,
    remote: SnapshotView,
    rows: Seq<RowView>,
    n: nat,
    notes: Seq<ActionView>,
)
    requires
        n <= rows.len(),
    ensures
        filled(options, remote, rows, n, notes).notes.len() >= notes.len(),
        forall|i: int|
            0 <= i < notes.len() ==> filled(options, remote, rows, n, notes).notes[i]
                == #[trigger] notes[i],
    decreases n,
{
    if n > 0 {
        first_notes_stay(options, remote, rows, (n - 1) as nat, notes);
        filled_step(options, remote, rows, n, notes);
    }
}

proof fn first_notes_are_planned(start: Start, i: int)
    requires
        0 <= i < (start.remote.skips + tracked_notes(
            start.remote.docs,
            start.remote.docs.len(),
            start.state,
        )).len(),
    ensures
        start.plan().contains(
            (start.remote.skips + tracked_notes(
                start.remote.docs,
                start.remote.docs.len(),
                start.state,
            ))[i],
        ),
{
    let rows = plan_rows(start.local, start.remote.docs, start.state);
    let notes = start.remote.skips + tracked_notes(
        start.remote.docs,
        start.remote.docs.len(),
        start.state,
    );
    first_notes_stay(start.options, start.remote, rows, rows.len(), notes);
    let b = plan_buckets(start.options, start.local, start.remote, start.state);
    let c = creations(
        sort_dedup(needed_dirs(b.transfers, b.transfers.len(), start.remote.folders)),
    );
    let p = start.plan();
    let at = c.len() + b.transfers.len() + b.deletes.len() + b.forgets.len();
    assert(p[at + i] == b.notes[i]);
    assert(b.notes[i] == notes[i]);
}

/// What the snapshot had to leave out is told in the plan.
pub proof fn remarks_of_the_snapshot_are_told(start: Start, i: int)
    requires
        0 <= i < start.remote.skips.len(),
    ensures
        start.plan().contains(start.remote.skips[i]),
{
    first_notes_are_planned(start, i);
}

proof fn tracked_paths_are_noted(
    docs: Seq<RemoteView>,
    n: nat,
    state: Seq<(Seq<char>, StateView)>,
    j: int,
)
    requires
        n <= docs.len(),
        0 <= j < n,
        !is_mapped(state, docs[j].uuid),
        value_of(state, docs[j].local_path()) is Some || has_loose(
            docs,
            j as nat,
            state,
            docs[j].local_path(),
        ),
    ensures
        tracked_notes(docs, n, state).contains(
            ActionView::Skip {
                path: docs[j].local_path(),
                reason: "target path is already tracked by another document"@,
            },
        ),
    decreases n,
{
    let note = ActionView::Skip {
        path: docs[j].local_path(),
        reason: "target path is already tracked by another document"@,
    };
    let all = tracked_notes(docs, n, state);
    let before = tracked_notes(docs, (n - 1) as nat, state);
    if j < n - 1 {
        tracked_paths_are_noted(docs, (n - 1) as nat, state, j);
        let k = choose|k: int| 0 <= k < before.len() && before[k] == note;
        assert(all[k] == note);
    } else {
        assert(all[before.len() as int] == note);
    }
}

/// An unmapped document whose path is mapped already, or is that of an earlier unmapped document, is
/// never dropped in silence: the plan says that the path is taken.
pub proof fn documents_without_a_path_are_told(start: Start, j: int, i: int)
    requires
        0 <= j < start.remote.docs.len(),
        !start.names(start.remote.docs[j].uuid),
        !start.is_unmapped(start.remote.docs[j].local_path()) || 0 <= i < j && !start.names(
            start.remote.docs[i].uuid,
        ) && start.remote.docs[i].local_path() == start.remote.docs[j].local_path(),
    ensures
        start.plan().contains(
            ActionView::Skip {
                path: start.remote.docs[j].local_path(),
                reason: "target path is already tracked by another document"@,
            },
        ),
{
    let docs = start.remote.docs;
    let state = start.state;
    let path = docs[j].local_path();
    if is_mapped(state, docs[j].uuid) {
        let k = choose|k: int| 0 <= k < state.len() && (#[trigger] state[k]).1.uuid == docs[j].uuid;
        assert(state[k].1.uuid == docs[j].uuid);
    }
    if !start.is_unmapped(path) {
        let k = choose|k: int| 0 <= k < state.len() && (#[trigger] state[k]).0 == path;
        value_of_is_keyed(state, path);
        assert(keys(state)[k] == path);
        assert(keys(state).contains(path));
    } else {
        if is_mapped(state, docs[i].uuid) {
            let k = choose|k: int|
                0 <= k < state.len() && (#[trigger] state[k]).1.uuid == docs[i].uuid;
            assert(state[k].1.uuid == docs[i].uuid);
        }
        assert(docs[i].local_path() == path);
        assert(has_loose(docs, j as nat, state, path));
    }
    tracked_paths_are_noted(docs, docs.len(), state, j);
    let notes = tracked_notes(docs, docs.len(), state);
    let note = ActionView::Skip {
        path,
        reason: "target path is already tracked by another document"@,
    };
    let k = choose|k: int| 0 <= k < notes.len() && notes[k] == note;
    let all = start.remote.skips + notes;
    assert(all[start.remote.skips.len() + k] == note);
    first_notes_are_planned(start, start.remote.skips.len() + k);
}

/// Whether a directory is another one or one of those around it.
pub open spec fn is_around(outer: Seq<char>, dir: Seq<char>) -> bool {
    dir.len() > 0 && (outer == dir || exists|i: int|
        0 <= i < dir.len() && #[trigger] dir[i] == '/' && outer == dir.take(i))
}

/// A plan makes exactly the folders that its uploads need and the device lacks: the directories that
/// they go to, and those around them.
pub proof fn needed_folders_are_made(start: Start, dir: Seq<char>)
    requires
        start.is_sound(),
    ensures
        start.plan().contains(ActionView::CreateRemoteFolder { rel_dir: dir }) <==> value_of(
            start.remote.folders,
            dir,
        ) is None && exists|x: ActionView| #[trigger]
            start.plan().contains(x) && (x matches ActionView::Upload { remote_dir, .. }
                && is_around(dir, remote_dir)),
{
    let b = plan_buckets(start.options, start.local, start.remote, start.state);
    let needed = needed_dirs(b.transfers, b.transfers.len(), start.remote.folders);
    let dirs = sort_dedup(needed);
    let c = creations(dirs);
    let p = start.plan();
    let make = ActionView::CreateRemoteFolder { rel_dir: dir };
    sort_dedup_is_ascending(needed);
    needed_dirs_members(b.transfers, b.transfers.len(), start.remote.folders, dir);
    planned_parts(start.options, start.local, start.remote, start.state);
    plan_positions(start);
    let n0 = c.len() as int;
    if p.contains(make) {
        let q = choose|q: int| 0 <= q < p.len() && p[q] == make;
        assert(q < n0);
        assert(p[q] == c[q]);
        assert(dirs[q] == dir);
        assert(dirs.contains(dir));
        assert(needed.contains(dir));
        let k = choose|k: int|
            0 <= k < b.transfers.len() && (#[trigger] b.transfers[k] matches ActionView::Upload {
                remote_dir,
                ..
            } && prefixes(remote_dir).contains(dir));
        let x = b.transfers[k];
        let r = x->Upload_remote_dir;
        assert(p[n0 + k] == x);
        assert(p.contains(x));
        assert(r.len() > 0) by {
            if r.len() == 0 {
                assert(prefixes(r).len() == 0);
            }
        }
        ways_go_through_all_directories(r, dir);
        assert(is_around(dir, r));
    }
    if value_of(start.remote.folders, dir) is None && exists|x: ActionView| #[trigger]
        p.contains(x) && (x matches ActionView::Upload { remote_dir, .. } && is_around(
            dir,
            remote_dir,
        )) {
        let x = choose|x: ActionView| #[trigger]
            p.contains(x) && (x matches ActionView::Upload { remote_dir, .. } && is_around(
                dir,
                remote_dir,
            ));
        let r = x->Upload_remote_dir;
        let q = choose|q: int| 0 <= q < p.len() && p[q] == x;
        assert(stage(p[q]) == 1);
        let k = q - n0;
        assert(0 <= k < b.transfers.len());
        assert(b.transfers[k] == x);
        ways_go_through_all_directories(r, dir);
        assert(prefixes(r).contains(dir));
        assert(b.transfers[k] matches ActionView::Upload { remote_dir, .. } && prefixes(
            remote_dir,
        ).contains(dir));
        assert(is_upload_dir(b.transfers, b.transfers.len(), dir));
        assert(needed.contains(dir));
        assert(dirs.contains(dir));
        let m = choose|m: int| 0 <= m < dirs.len() && dirs[m] == dir;
        assert(p[m] == c[m]);
        assert(c[m] == make);
    }
}

proof fn plan_positions(start: Start)
    requires
        start.is_sound(),
    ensures
        ({
            let b = plan_buckets(start.options, start.local, start.remote, start.state);
            let c = creations(
                sort_dedup(needed_dirs(b.transfers, b.transfers.len(), start.remote.folders)),
            );
            let p = start.plan();
            let n0 = c.len() as int;
            let n1 = n0 + b.transfers.len();
            &&& p.len() >= n1
            &&& forall|i: int| 0 <= i < n0 ==> #[trigger] p[i] == c[i] && stage(p[i]) == 0
            &&& forall|i: int| n0 <= i < n1 ==> #[trigger] p[i] == b.transfers[i - n0] && stage(p[i])
                == 1
            &&& forall|i: int| n1 <= i < p.len() ==> stage(#[trigger] p[i]) > 1
        }),
{
    planned_parts(start.options, start.local, start.remote, start.state);
    let b = plan_buckets(start.options, start.local, start.remote, start.state);
    let c = creations(
        sort_dedup(needed_dirs(b.transfers, b.transfers.len(), start.remote.folders)),
    );
    let p = start.plan();
    let n0 = c.len() as int;
    let n1 = n0 + b.transfers.len();
    let n2 = n1 + b.deletes.len();
    let n3 = n2 + b.forgets.len();
    assert forall|i: int| n1 <= i < p.len() implies stage(#[trigger] p[i]) > 1 by {
        if i < n2 {
            assert(p[i] == b.deletes[i - n1]);
        } else if i < n3 {
            assert(p[i] == b.forgets[i - n2]);
        } else {
            assert(p[i] == b.notes[i - n3]);
        }
    }
    assert forall|i: int| n0 <= i < n1 implies #[trigger] p[i] == b.transfers[i - n0] && stage(p[i])
        == 1 by {
        assert(p[i] == b.transfers[i - n0]);
    }
}

/// Two new files that would go to one name on the device are both left alone, and the plan says so for
/// each; and so is a file whose name a folder has.
pub proof fn files_of_one_name_are_left_alone(
    start: Start,
    file: LocalView,
    other: LocalView,
    dir: Seq<char>,
    name: Seq<char>,
    ext: Seq<char>,
    other_ext: Seq<char>,
    f: int,
)
    requires
        start.is_sound(),
        start.options.mode != Mode::Pull,
        can_name(name, ext),
        can_name(name, other_ext),
        ext != other_ext,
        file.rel_path == file_path(dir, name, ext),
        other.rel_path == file_path(dir, name, other_ext),
        start.is_unmapped(file.rel_path),
        start.is_unmapped(other.rel_path),
        start.has_file(file.rel_path, file),
        start.lacks_loose(file.rel_path),
        start.lacks_loose(other.rel_path),
    ensures
        is_free(start.remote, dir, name) && start.has_file(other.rel_path, other) ==> only_says(
            start.plan(),
            file.rel_path,
            "multiple local files map to the same device name"@,
        ),
        0 <= f < start.remote.folders.len() && start.remote.folders[f].0 == (if dir.len() == 0 {
            name
        } else {
            dir + seq!['/'] + name
        }) ==> only_says(
            start.plan(),
            file.rel_path,
            "an item with this name already exists on the device (no sync state to match it)"@,
        ),
{
    let i = unmapped_row(start, file.rel_path, Some(file), None);
    let rows = plan_rows(start.local, start.remote.docs, start.state);
    rows_lead_to_actions(start, i);
    uploads_keep_their_place(dir, name, ext);
    uploads_keep_their_place(dir, name, other_ext);
    if is_free(start.remote, dir, name) && start.has_file(other.rel_path, other) {
        let j = unmapped_row(start, other.rel_path, Some(other), None);
        free_names_are_not_taken(start.remote, dir, name);
        let a = file.rel_path;
        let b = other.rel_path;
        assert(a != b) by {
            let base = if dir.len() == 0 {
                name + seq!['.']
            } else {
                dir + seq!['/'] + name + seq!['.']
            };
            assert(a =~= base + ext);
            assert(b =~= base + other_ext);
            if a == b {
                assert(a.skip(base.len() as int) =~= ext);
                assert(b.skip(base.len() as int) =~= other_ext);
            }
        }
        assert(i != j);
        if i < j {
            rivals_counts(rows, rows.len(), i, j, (dir, name));
        } else {
            rivals_counts(rows, rows.len(), j, i, (dir, name));
        }
    }
    if 0 <= f < start.remote.folders.len() && start.remote.folders[f].0 == (if dir.len() == 0 {
        name
    } else {
        dir + seq!['/'] + name
    }) {
        paths_split_where_they_were_joined(dir, name);
        let path = start.remote.folders[f].0;
        assert(path.len() > 0);
        assert(split_dir(path) == (dir, name));
        assert(is_taken(start.remote, (dir, name)));
    }
}

} // verus!
