//! What holds of every sync plan.
use vstd::prelude::*;
use crate::pathmap::{keys, value_of, value_of_is_keyed};
use crate::plan::{
    creations, doc_with, download_action, filled, for_both, is_candidate, is_mapped, is_taken,
    local_at, local_changed, local_paths, loose_doc, loose_paths, missing_dirs, needed_dirs,
    plan_buckets, plan_keys, plan_rows, planned, remote_changed, rivals, row_decision, row_of,
    row_uuid, tracked_notes, with_row, BucketsView, Decision, RowView,
};
use crate::sync::{
    prefixes, prefixes_before, pulled_as, split_dir, target_of, ActionView, ConflictPolicy, DocKind,
    LocalView, Mode, RemoteType, RemoteView, SnapshotView, StateView, SyncOptions,
};
use crate::text::{
    find_last, find_last_is_last, lex_irreflexive, lex_lt, lex_transitive, sort_dedup,
    sort_dedup_is_ascending, Class,
};

verus! {

/// The buckets that one row alone fills.
pub open spec fn row_buckets(
    options: SyncOptions,
    remote: SnapshotView,
    rows: Seq<RowView>,
    i: int,
) -> BucketsView {
    with_row(
        BucketsView {
            transfers: Seq::empty(),
            deletes: Seq::empty(),
            forgets: Seq::empty(),
            notes: Seq::empty(),
        },
        rows[i],
        row_decision(options, rows[i]),
        is_taken(remote, target_of(rows[i].key)),
        rivals(rows, rows.len(), target_of(rows[i].key)) > 1,
    )
}

/// Each transfer and deletion stands for a decision.
pub(crate) proof fn actions_follow_decisions(
    options: SyncOptions,
    remote: SnapshotView,
    rows: Seq<RowView>,
    i: int,
)
    ensures
        ({
            let one = row_buckets(options, remote, rows, i);
            let decided = row_decision(options, rows[i]);
            let row = rows[i];
            &&& one.transfers.len() > 0 ==> {
                ||| decided == Decision::Upload && one.transfers[0] == (ActionView::Upload {
                    local: row.key,
                    kind: row.entry->Some_0.kind,
                    remote_dir: target_of(row.key).0,
                    name: target_of(row.key).1,
                }) && !is_taken(remote, target_of(row.key)) && rivals(
                    rows,
                    rows.len(),
                    target_of(row.key),
                ) <= 1
                ||| decided == Decision::Update && one.transfers[0] == (ActionView::UpdateRemote {
                    local: row.key,
                    kind: row.entry->Some_0.kind,
                    uuid: row_uuid(row),
                })
                ||| decided == Decision::Download && one.transfers[0] == download_action(
                    row.key,
                    row.doc->Some_0,
                )
            }
            &&& one.deletes.len() > 0 ==> {
                ||| decided == Decision::DeleteLocal && one.deletes[0] == (
                ActionView::DeleteLocal { path: row.key })
                ||| decided == Decision::DeleteRemote && one.deletes[0] == (
                ActionView::DeleteRemote { path: row.key, uuid: row.doc->Some_0.uuid })
            }
        }),
{
    let decided = row_decision(options, rows[i]);
    match decided {
        Decision::Upload => {},
        Decision::Update => {},
        Decision::Download => {},
        Decision::DeleteLocal => {},
        Decision::DeleteRemote => {},
        _ => {},
    }
}

/// What has to hold for a decision.
pub(crate) proof fn decisions_have_grounds(options: SyncOptions, row: RowView)
    ensures
        row_decision(options, row) == Decision::Upload ==> is_candidate(row),
        row_decision(options, row) == Decision::Update ==> row.entry is Some && row.doc is Some
            && match row.st {
            Some(st) => st.kind != DocKind::Rmdoc && (options.conflict == ConflictPolicy::Skip
                ==> !remote_changed(st, row.doc->Some_0)),
            None => options.conflict != ConflictPolicy::Skip && row.doc->Some_0.doc_type
                != RemoteType::Notebook && row.entry->Some_0.kind == pulled_as(
                row.doc->Some_0.doc_type,
            ),
        },
        row_decision(options, row) == Decision::Download ==> row.doc is Some && (options.conflict
            == ConflictPolicy::Skip && row.entry is Some ==> row.st is Some && !local_changed(
            row.st->Some_0,
            row.entry->Some_0,
        )),
        row_decision(options, row) == Decision::DeleteLocal ==> options.delete && row.st is Some
            && row.entry is Some && (options.conflict == ConflictPolicy::Skip ==> !local_changed(
            row.st->Some_0,
            row.entry->Some_0,
        )),
        row_decision(options, row) == Decision::DeleteRemote ==> options.delete && row.st is Some
            && row.doc is Some && row.entry is None && (options.conflict == ConflictPolicy::Skip
            ==> !remote_changed(row.st->Some_0, row.doc->Some_0)),
{
    match (row.st, row.entry, row.doc) {
        (Some(st), Some(entry), Some(doc)) => {
            let d = for_both(options, st, entry, doc);
            assert(d == row_decision(options, row));
        },
        (Some(st), Some(entry), None) => {},
        (Some(st), None, Some(doc)) => {},
        _ => {},
    }
}

pub(crate) proof fn filled_step(
    options: SyncOptions,
    remote: SnapshotView,
    rows: Seq<RowView>,
    n: nat,
    notes: Seq<ActionView>,
)
    requires
        0 < n <= rows.len(),
    ensures
        ({
            let before = filled(options, remote, rows, (n - 1) as nat, notes);
            let now = filled(options, remote, rows, n, notes);
            let one = row_buckets(options, remote, rows, n - 1);
            &&& now.transfers == before.transfers + one.transfers
            &&& now.deletes == before.deletes + one.deletes
            &&& now.forgets == before.forgets + one.forgets
            &&& now.notes == before.notes + one.notes
            &&& one.transfers.len() <= 1
            &&& one.deletes.len() <= 1
            &&& one.forgets.len() <= 1
            &&& one.notes.len() <= 1
        }),
{
    let before = filled(options, remote, rows, (n - 1) as nat, notes);
    let now = filled(options, remote, rows, n, notes);
    let one = row_buckets(options, remote, rows, n - 1);
    assert(now.transfers =~= before.transfers + one.transfers);
    assert(now.deletes =~= before.deletes + one.deletes);
    assert(now.forgets =~= before.forgets + one.forgets);
    assert(now.notes =~= before.notes + one.notes);
}

/// A transfer comes from one of the rows.
pub(crate) proof fn transfer_origin(
    options: SyncOptions,
    remote: SnapshotView,
    rows: Seq<RowView>,
    n: nat,
    notes: Seq<ActionView>,
    x: ActionView,
) -> (i: int)
    requires
        n <= rows.len(),
        filled(options, remote, rows, n, notes).transfers.contains(x),
    ensures
        0 <= i < n,
        row_buckets(options, remote, rows, i).transfers == seq![x],
    decreases n,
{
    let now = filled(options, remote, rows, n, notes).transfers;
    let k = choose|k: int| 0 <= k < now.len() && now[k] == x;
    filled_step(options, remote, rows, n, notes);
    let before = filled(options, remote, rows, (n - 1) as nat, notes).transfers;
    if k < before.len() {
        assert(before[k] == x);
        transfer_origin(options, remote, rows, (n - 1) as nat, notes, x)
    } else {
        assert(row_buckets(options, remote, rows, n - 1).transfers =~= seq![x]);
        n - 1
    }
}

/// A deletion comes from one of the rows.
pub(crate) proof fn delete_origin(
    options: SyncOptions,
    remote: SnapshotView,
    rows: Seq<RowView>,
    n: nat,
    notes: Seq<ActionView>,
    x: ActionView,
) -> (i: int)
    requires
        n <= rows.len(),
        filled(options, remote, rows, n, notes).deletes.contains(x),
    ensures
        0 <= i < n,
        row_buckets(options, remote, rows, i).deletes == seq![x],
    decreases n,
{
    let now = filled(options, remote, rows, n, notes).deletes;
    let k = choose|k: int| 0 <= k < now.len() && now[k] == x;
    filled_step(options, remote, rows, n, notes);
    let before = filled(options, remote, rows, (n - 1) as nat, notes).deletes;
    if k < before.len() {
        assert(before[k] == x);
        delete_origin(options, remote, rows, (n - 1) as nat, notes, x)
    } else {
        assert(row_buckets(options, remote, rows, n - 1).deletes =~= seq![x]);
        n - 1
    }
}

/// What kind of action each bucket holds.
proof fn bucket_kinds(
    options: SyncOptions,
    remote: SnapshotView,
    rows: Seq<RowView>,
    n: nat,
    notes: Seq<ActionView>,
)
    requires
        n <= rows.len(),
        forall|i: int| 0 <= i < notes.len() ==> (#[trigger] notes[i]) is Skip,
    ensures
        ({
            let b = filled(options, remote, rows, n, notes);
            &&& forall|i: int|
                0 <= i < b.transfers.len() ==> (#[trigger] b.transfers[i] is Upload
                    || b.transfers[i] is UpdateRemote || b.transfers[i] is Download)
            &&& forall|i: int|
                0 <= i < b.deletes.len() ==> (#[trigger] b.deletes[i] is DeleteLocal
                    || b.deletes[i] is DeleteRemote)
            &&& forall|i: int| 0 <= i < b.forgets.len() ==> (#[trigger] b.forgets[i]) is Forget
            &&& forall|i: int|
                0 <= i < b.notes.len() ==> (#[trigger] b.notes[i] is Skip || b.notes[i] is Conflict)
        }),
    decreases n,
{
    if n > 0 {
        bucket_kinds(options, remote, rows, (n - 1) as nat, notes);
        filled_step(options, remote, rows, n, notes);
    }
}

/// The note on a taken path is a skip.
proof fn tracked_notes_are_skips(
    docs: Seq<RemoteView>,
    n: nat,
    state: Seq<(Seq<char>, StateView)>,
)
    ensures
        forall|i: int|
            0 <= i < tracked_notes(docs, n, state).len() ==> (#[trigger] tracked_notes(
                docs,
                n,
                state,
            )[i]) is Skip,
    decreases n,
{
    if n > 0 {
        tracked_notes_are_skips(docs, (n - 1) as nat, state);
    }
}

/// The place of an action in a plan: folders, transfers, deletions, forgotten mappings, notes.
pub open spec fn stage(action: ActionView) -> int {
    match action {
        ActionView::CreateRemoteFolder { .. } => 0,
        ActionView::Upload { .. } => 1,
        ActionView::UpdateRemote { .. } => 1,
        ActionView::Download { .. } => 1,
        ActionView::DeleteRemote { .. } => 2,
        ActionView::DeleteLocal { .. } => 2,
        ActionView::Forget { .. } => 3,
        ActionView::Conflict { .. } => 4,
        ActionView::Skip { .. } => 4,
    }
}

/// Where the actions of a plan come from.
pub(crate) proof fn planned_parts(
    options: SyncOptions,
    local: Seq<LocalView>,
    remote: SnapshotView,
    state: Seq<(Seq<char>, StateView)>,
)
    requires
        forall|i: int| 0 <= i < remote.skips.len() ==> (#[trigger] remote.skips[i]) is Skip,
    ensures
        ({
            let b = plan_buckets(options, local, remote, state);
            &&& forall|i: int|
                0 <= i < b.transfers.len() ==> stage(#[trigger] b.transfers[i]) == 1
            &&& forall|i: int| 0 <= i < b.deletes.len() ==> stage(#[trigger] b.deletes[i]) == 2
            &&& forall|i: int| 0 <= i < b.forgets.len() ==> stage(#[trigger] b.forgets[i]) == 3
            &&& forall|i: int| 0 <= i < b.notes.len() ==> stage(#[trigger] b.notes[i]) == 4
        }),
{
    let rows = plan_rows(local, remote.docs, state);
    let notes = remote.skips + tracked_notes(remote.docs, remote.docs.len(), state);
    tracked_notes_are_skips(remote.docs, remote.docs.len(), state);
    assert forall|i: int| 0 <= i < notes.len() implies (#[trigger] notes[i]) is Skip by {
        if i < remote.skips.len() {
            assert(notes[i] == remote.skips[i]);
        } else {
            assert(notes[i] == tracked_notes(remote.docs, remote.docs.len(), state)[i
                - remote.skips.len()]);
        }
    }
    bucket_kinds(options, remote, rows, rows.len(), notes);
}

/// A plan creates folders first, then transfers, then deletes, then forgets mappings; notes come
/// last.
pub proof fn plans_are_staged(
    options: SyncOptions,
    local: Seq<LocalView>,
    remote: SnapshotView,
    state: Seq<(Seq<char>, StateView)>,
)
    requires
        forall|i: int| 0 <= i < remote.skips.len() ==> (#[trigger] remote.skips[i]) is Skip,
    ensures
        forall|i: int, j: int|
            0 <= i <= j < planned(options, local, remote, state).len() ==> stage(
                #[trigger] planned(options, local, remote, state)[i],
            ) <= stage(#[trigger] planned(options, local, remote, state)[j]),
{
    planned_parts(options, local, remote, state);
    let b = plan_buckets(options, local, remote, state);
    let c = creations(sort_dedup(needed_dirs(b.transfers, b.transfers.len(), remote.folders)));
    let p = planned(options, local, remote, state);
    let n0 = c.len() as int;
    let n1 = n0 + b.transfers.len();
    let n2 = n1 + b.deletes.len();
    let n3 = n2 + b.forgets.len();
    assert forall|i: int| 0 <= i < p.len() implies stage(#[trigger] p[i]) == if i < n0 {
        0int
    } else if i < n1 {
        1
    } else if i < n2 {
        2
    } else if i < n3 {
        3
    } else {
        4
    } by {
        if i < n0 {
            assert(p[i] == c[i]);
        } else if i < n1 {
            assert(p[i] == b.transfers[i - n0]);
        } else if i < n2 {
            assert(p[i] == b.deletes[i - n1]);
        } else if i < n3 {
            assert(p[i] == b.forgets[i - n2]);
        } else {
            assert(p[i] == b.notes[i - n3]);
        }
    }
}

/// An action of a plan lies in the bucket of its stage.
proof fn action_origin(
    options: SyncOptions,
    local: Seq<LocalView>,
    remote: SnapshotView,
    state: Seq<(Seq<char>, StateView)>,
    x: ActionView,
)
    requires
        forall|i: int| 0 <= i < remote.skips.len() ==> (#[trigger] remote.skips[i]) is Skip,
        planned(options, local, remote, state).contains(x),
    ensures
        stage(x) == 1 ==> plan_buckets(options, local, remote, state).transfers.contains(x),
        stage(x) == 2 ==> plan_buckets(options, local, remote, state).deletes.contains(x),
        stage(x) == 0 ==> exists|d: Seq<char>|
            x == (ActionView::CreateRemoteFolder { rel_dir: d }) && #[trigger] sort_dedup(
                needed_dirs(
                    plan_buckets(options, local, remote, state).transfers,
                    plan_buckets(options, local, remote, state).transfers.len(),
                    remote.folders,
                ),
            ).contains(d),
{
    planned_parts(options, local, remote, state);
    let b = plan_buckets(options, local, remote, state);
    let dirs = sort_dedup(needed_dirs(b.transfers, b.transfers.len(), remote.folders));
    let c = creations(dirs);
    let p = planned(options, local, remote, state);
    let n0 = c.len() as int;
    let n1 = n0 + b.transfers.len();
    let n2 = n1 + b.deletes.len();
    let n3 = n2 + b.forgets.len();
    let i = choose|i: int| 0 <= i < p.len() && p[i] == x;
    if i < n0 {
        assert(p[i] == c[i]);
        assert(dirs.contains(dirs[i]));
    } else if i < n1 {
        assert(p[i] == b.transfers[i - n0]);
        assert(b.transfers.contains(x));
    } else if i < n2 {
        assert(p[i] == b.deletes[i - n1]);
        assert(b.deletes.contains(x));
    } else if i < n3 {
        assert(p[i] == b.forgets[i - n2]);
    } else {
        assert(p[i] == b.notes[i - n3]);
    }
}

/// The row that an action of a plan comes from.
proof fn action_row(
    options: SyncOptions,
    local: Seq<LocalView>,
    remote: SnapshotView,
    state: Seq<(Seq<char>, StateView)>,
    x: ActionView,
) -> (i: int)
    requires
        forall|i: int| 0 <= i < remote.skips.len() ==> (#[trigger] remote.skips[i]) is Skip,
        planned(options, local, remote, state).contains(x),
        stage(x) == 1 || stage(x) == 2,
    ensures
        0 <= i < plan_rows(local, remote.docs, state).len(),
        stage(x) == 1 ==> row_buckets(
            options,
            remote,
            plan_rows(local, remote.docs, state),
            i,
        ).transfers == seq![x],
        stage(x) == 2 ==> row_buckets(
            options,
            remote,
            plan_rows(local, remote.docs, state),
            i,
        ).deletes == seq![x],
{
    let rows = plan_rows(local, remote.docs, state);
    let notes = remote.skips + tracked_notes(remote.docs, remote.docs.len(), state);
    action_origin(options, local, remote, state, x);
    if stage(x) == 1 {
        transfer_origin(options, remote, rows, rows.len(), notes, x)
    } else {
        delete_origin(options, remote, rows, rows.len(), notes, x)
    }
}

proof fn no_uploads_no_dirs(
    transfers: Seq<ActionView>,
    n: nat,
    folders: Seq<(Seq<char>, Seq<char>)>,
)
    requires
        n <= transfers.len(),
        forall|i: int| 0 <= i < transfers.len() ==> !(#[trigger] transfers[i] is Upload),
    ensures
        needed_dirs(transfers, n, folders).len() == 0,
    decreases n,
{
    if n > 0 {
        no_uploads_no_dirs(transfers, (n - 1) as nat, folders);
        assert(!(transfers[n - 1] is Upload));
    }
}

/// What is decided for a path of a one-way sync.
proof fn one_way_decisions(options: SyncOptions, row: RowView)
    ensures
        options.mode == Mode::Push ==> row_decision(options, row) != Decision::Download
            && row_decision(options, row) != Decision::DeleteLocal,
        options.mode == Mode::Pull ==> row_decision(options, row) != Decision::Upload
            && row_decision(options, row) != Decision::Update && row_decision(options, row)
            != Decision::DeleteRemote,
{
    match (row.st, row.entry, row.doc) {
        (Some(st), Some(entry), Some(doc)) => {
            if options.mode == Mode::Push {
                assert(for_both(options, st, entry, doc) != Decision::Download);
            }
        },
        _ => {},
    }
}

/// A push never changes local files, and a pull never changes the device.
pub proof fn one_way_plans_write_one_side(
    options: SyncOptions,
    local: Seq<LocalView>,
    remote: SnapshotView,
    state: Seq<(Seq<char>, StateView)>,
    x: ActionView,
)
    requires
        forall|i: int| 0 <= i < remote.skips.len() ==> (#[trigger] remote.skips[i]) is Skip,
        planned(options, local, remote, state).contains(x),
    ensures
        options.mode == Mode::Push ==> !(x is Download) && !(x is DeleteLocal),
        options.mode == Mode::Pull ==> !(x is CreateRemoteFolder) && !(x is Upload)
            && !(x is UpdateRemote) && !(x is DeleteRemote),
{
    let rows = plan_rows(local, remote.docs, state);
    if stage(x) == 1 || stage(x) == 2 {
        let i = action_row(options, local, remote, state, x);
        let one = row_buckets(options, remote, rows, i);
        one_way_decisions(options, rows[i]);
        actions_follow_decisions(options, remote, rows, i);
        assert(stage(x) == 1 ==> one.transfers[0] == x);
        assert(stage(x) == 2 ==> one.deletes[0] == x);
    } else if stage(x) == 0 && options.mode == Mode::Pull {
        action_origin(options, local, remote, state, x);
        let b = plan_buckets(options, local, remote, state);
        let notes = remote.skips + tracked_notes(remote.docs, remote.docs.len(), state);
        assert forall|k: int| 0 <= k < b.transfers.len() implies !(
        #[trigger] b.transfers[k] is Upload) by {
            assert(b.transfers.contains(b.transfers[k]));
            let i = transfer_origin(
                options,
                remote,
                rows,
                rows.len(),
                notes,
                b.transfers[k],
            );
            let one = row_buckets(options, remote, rows, i);
            assert(one.transfers[0] == b.transfers[k]);
            one_way_decisions(options, rows[i]);
            actions_follow_decisions(options, remote, rows, i);
        }
        no_uploads_no_dirs(b.transfers, b.transfers.len(), remote.folders);
        let needed = needed_dirs(b.transfers, b.transfers.len(), remote.folders);
        sort_dedup_is_ascending(needed);
        let d = choose|d: Seq<char>|
            x == (ActionView::CreateRemoteFolder { rel_dir: d }) && #[trigger] sort_dedup(
                needed,
            ).contains(d);
        assert(needed.contains(d));
    }
}

/// Only mapped paths are deleted, only when deletion was asked for, and on the device only the
/// document that the path is mapped to.
pub proof fn deletions_are_asked_for_and_mapped(
    options: SyncOptions,
    local: Seq<LocalView>,
    remote: SnapshotView,
    state: Seq<(Seq<char>, StateView)>,
    x: ActionView,
)
    requires
        forall|i: int| 0 <= i < remote.skips.len() ==> (#[trigger] remote.skips[i]) is Skip,
        planned(options, local, remote, state).contains(x),
    ensures
        x matches ActionView::DeleteLocal { path } ==> options.delete && value_of(
            state,
            path,
        ) is Some && local_at(local, path) is Some,
        x matches ActionView::DeleteRemote { path, uuid } ==> options.delete && (value_of(
            state,
            path,
        ) matches Some(st) && st.uuid == uuid && local_at(local, path) is None),
{
    let rows = plan_rows(local, remote.docs, state);
    if stage(x) == 2 {
        let i = action_row(options, local, remote, state, x);
        let one = row_buckets(options, remote, rows, i);
        assert(one.deletes[0] == x);
        let row = rows[i];
        assert(row == row_of(local, remote.docs, state, row.key));
        actions_follow_decisions(options, remote, rows, i);
        decisions_have_grounds(options, row);
        if row.st is Some {
            doc_with_has_uuid(remote.docs, row.st->Some_0.uuid);
        }
    }
}

/// The document found by a UUID has that UUID.
pub(crate) proof fn doc_with_has_uuid(docs: Seq<RemoteView>, uuid: Seq<char>)
    ensures
        doc_with(docs, uuid) matches Some(doc) ==> doc.uuid == uuid && docs.contains(doc),
    decreases docs.len(),
{
    if docs.len() > 0 {
        doc_with_has_uuid(docs.drop_last(), uuid);
        if docs.last().uuid == uuid {
            assert(docs[docs.len() - 1] == docs.last());
        } else if doc_with(docs.drop_last(), uuid) is Some {
            let doc = doc_with(docs.drop_last(), uuid)->Some_0;
            let k = choose|k: int| 0 <= k < docs.drop_last().len() && docs.drop_last()[k] == doc;
            assert(docs[k] == doc);
        }
    }
}

/// The device copy of a mapped notebook bundle is never overwritten; an unmapped document is
/// overwritten only by a file of its own type, and a notebook never is.
pub proof fn handwriting_is_never_overwritten(
    options: SyncOptions,
    local: Seq<LocalView>,
    remote: SnapshotView,
    state: Seq<(Seq<char>, StateView)>,
    x: ActionView,
)
    requires
        forall|i: int| 0 <= i < remote.skips.len() ==> (#[trigger] remote.skips[i]) is Skip,
        planned(options, local, remote, state).contains(x),
    ensures
        x matches ActionView::UpdateRemote { local: path, kind, uuid } ==> match value_of(
            state,
            path,
        ) {
            Some(st) => st.uuid == uuid && st.kind != DocKind::Rmdoc,
            None => loose_doc(remote.docs, 0, state, path) matches Some(doc) && doc.uuid == uuid
                && doc.doc_type != RemoteType::Notebook && kind == pulled_as(
                doc.doc_type,
            ),
        },
{
    let rows = plan_rows(local, remote.docs, state);
    if stage(x) == 1 {
        let i = action_row(options, local, remote, state, x);
        let one = row_buckets(options, remote, rows, i);
        assert(one.transfers[0] == x);
        let row = rows[i];
        assert(row == row_of(local, remote.docs, state, row.key));
        actions_follow_decisions(options, remote, rows, i);
        decisions_have_grounds(options, row);
    }
}

/// With the default policy nothing that changed since the last sync is overwritten or deleted: a
/// device document is updated only while it is as last synced, a local file is downloaded over or
/// deleted only while it is as last synced, and so for deletions on the device.
pub proof fn skipping_conflicts_loses_nothing(
    options: SyncOptions,
    local: Seq<LocalView>,
    remote: SnapshotView,
    state: Seq<(Seq<char>, StateView)>,
    x: ActionView,
)
    requires
        forall|i: int| 0 <= i < remote.skips.len() ==> (#[trigger] remote.skips[i]) is Skip,
        planned(options, local, remote, state).contains(x),
        options.conflict == ConflictPolicy::Skip,
    ensures
        x matches ActionView::UpdateRemote { local: path, .. } ==> (value_of(
            state,
            path,
        ) matches Some(st) && (doc_with(remote.docs, st.uuid) matches Some(doc)
            && !remote_changed(st, doc))),
        x matches ActionView::Download { local: path, .. } ==> match local_at(local, path) {
            Some(entry) => value_of(state, path) matches Some(st) && !local_changed(st, entry),
            None => true,
        },
        x matches ActionView::DeleteLocal { path } ==> (value_of(state, path) matches Some(st) && (
        local_at(local, path) matches Some(entry) && !local_changed(st, entry))),
        x matches ActionView::DeleteRemote { path, .. } ==> (value_of(state, path) matches Some(st)
            && (doc_with(remote.docs, st.uuid) matches Some(doc) && !remote_changed(st, doc))),
{
    let rows = plan_rows(local, remote.docs, state);
    if stage(x) == 1 || stage(x) == 2 {
        let i = action_row(options, local, remote, state, x);
        let one = row_buckets(options, remote, rows, i);
        assert(stage(x) == 1 ==> one.transfers[0] == x);
        assert(stage(x) == 2 ==> one.deletes[0] == x);
        let row = rows[i];
        assert(row == row_of(local, remote.docs, state, row.key));
        actions_follow_decisions(options, remote, rows, i);
        decisions_have_grounds(options, row);
    }
}

/// Two transfers come from two rows, in the same order.
proof fn two_transfer_origins(
    options: SyncOptions,
    remote: SnapshotView,
    rows: Seq<RowView>,
    n: nat,
    notes: Seq<ActionView>,
    a: int,
    b: int,
) -> (r: (int, int))
    requires
        n <= rows.len(),
        0 <= a < b < filled(options, remote, rows, n, notes).transfers.len(),
    ensures
        0 <= r.0 < r.1 < n,
        row_buckets(options, remote, rows, r.0).transfers == seq![
            filled(options, remote, rows, n, notes).transfers[a],
        ],
        row_buckets(options, remote, rows, r.1).transfers == seq![
            filled(options, remote, rows, n, notes).transfers[b],
        ],
    decreases n,
{
    let now = filled(options, remote, rows, n, notes).transfers;
    filled_step(options, remote, rows, n, notes);
    let before = filled(options, remote, rows, (n - 1) as nat, notes).transfers;
    assert(now[a] == before[a]);
    if b < before.len() {
        assert(now[b] == before[b]);
        two_transfer_origins(options, remote, rows, (n - 1) as nat, notes, a, b)
    } else {
        assert(before.contains(before[a]));
        let i = transfer_origin(options, remote, rows, (n - 1) as nat, notes, before[a]);
        assert(row_buckets(options, remote, rows, n - 1).transfers =~= seq![now[b]]);
        (i, n - 1)
    }
}

pub(crate) proof fn rivals_counts(rows: Seq<RowView>, n: nat, i: int, j: int, target: (Seq<char>, Seq<char>))
    requires
        0 <= i < j < n <= rows.len(),
        is_candidate(rows[i]),
        is_candidate(rows[j]),
        target_of(rows[i].key) == target,
        target_of(rows[j].key) == target,
    ensures
        rivals(rows, n, target) > 1,
    decreases n,
{
    if j < n - 1 {
        rivals_counts(rows, (n - 1) as nat, i, j, target);
    } else {
        rivals_counts_one(rows, (n - 1) as nat, i, target);
    }
}

proof fn rivals_counts_one(rows: Seq<RowView>, n: nat, i: int, target: (Seq<char>, Seq<char>))
    requires
        0 <= i < n <= rows.len(),
        is_candidate(rows[i]),
        target_of(rows[i].key) == target,
    ensures
        rivals(rows, n, target) >= 1,
    decreases n,
{
    if i < n - 1 {
        rivals_counts_one(rows, (n - 1) as nat, i, target);
    }
}

/// The transfers of a plan are about different paths, and its uploads go to different device
/// names, none of which is taken.
pub proof fn transfers_do_not_collide(
    options: SyncOptions,
    local: Seq<LocalView>,
    remote: SnapshotView,
    state: Seq<(Seq<char>, StateView)>,
)
    ensures
        ({
            let transfers = plan_buckets(options, local, remote, state).transfers;
            &&& forall|a: int|
                0 <= a < transfers.len() ==> (#[trigger] transfers[a] matches ActionView::Upload {
                    remote_dir,
                    name,
                    ..
                } ==> !is_taken(remote, (remote_dir, name)))
            &&& forall|a: int, b: int|
                0 <= a < b < transfers.len() ==> transferred(#[trigger] transfers[a])
                    != transferred(#[trigger] transfers[b])
            &&& forall|a: int, b: int|
                0 <= a < b < transfers.len() && transfers[a] is Upload && transfers[b] is Upload
                    ==> (upload_target(#[trigger] transfers[a]) != upload_target(
                    #[trigger] transfers[b],
                ))
        }),
{
    let rows = plan_rows(local, remote.docs, state);
    let ks = plan_keys(local, remote.docs, state);
    let notes = remote.skips + tracked_notes(remote.docs, remote.docs.len(), state);
    let transfers = plan_buckets(options, local, remote, state).transfers;
    sort_dedup_is_ascending(
        keys(state) + local_paths(local) + loose_paths(remote.docs, remote.docs.len(), state),
    );
    assert forall|a: int| 0 <= a < transfers.len() implies (
    #[trigger] transfers[a] matches ActionView::Upload { remote_dir, name, .. } ==> !is_taken(
        remote,
        (remote_dir, name),
    )) by {
        assert(transfers.contains(transfers[a]));
        let i = transfer_origin(options, remote, rows, rows.len(), notes, transfers[a]);
        assert(row_buckets(options, remote, rows, i).transfers[0] == transfers[a]);
        actions_follow_decisions(options, remote, rows, i);
    }
    assert forall|a: int, b: int| 0 <= a < b < transfers.len() implies transferred(
        #[trigger] transfers[a],
    ) != transferred(#[trigger] transfers[b]) && (transfers[a] is Upload && transfers[b] is Upload
        ==> upload_target(transfers[a]) != upload_target(transfers[b])) by {
        let (i, j) = two_transfer_origins(options, remote, rows, rows.len(), notes, a, b);
        assert(row_buckets(options, remote, rows, i).transfers[0] == transfers[a]);
        assert(row_buckets(options, remote, rows, j).transfers[0] == transfers[b]);
        actions_follow_decisions(options, remote, rows, i);
        actions_follow_decisions(options, remote, rows, j);
        decisions_have_grounds(options, rows[i]);
        decisions_have_grounds(options, rows[j]);
        assert(rows[i].key == ks[i] && rows[j].key == ks[j]);
        assert(lex_lt(ks[i], ks[j]));
        lex_irreflexive(ks[i]);
        if transfers[a] is Upload && transfers[b] is Upload && target_of(rows[i].key) == target_of(
            rows[j].key,
        ) {
            rivals_counts(rows, rows.len(), i, j, target_of(rows[i].key));
        }
    }
}

/// The local path that a transfer is about.
pub open spec fn transferred(action: ActionView) -> Seq<char> {
    match action {
        ActionView::Upload { local, .. } => local,
        ActionView::UpdateRemote { local, .. } => local,
        ActionView::Download { local, .. } => local,
        _ => Seq::empty(),
    }
}

/// The device directory and name that an upload goes to.
pub open spec fn upload_target(action: ActionView) -> (Seq<char>, Seq<char>) {
    (action->Upload_remote_dir, action->Upload_name)
}

/// Whether both sides are as the state recorded them: every mapped path has its file and its
/// document, unchanged, and there is no other file or document.
pub open spec fn is_settled(
    local: Seq<LocalView>,
    docs: Seq<RemoteView>,
    state: Seq<(Seq<char>, StateView)>,
) -> bool {
    &&& forall|key: Seq<char>|
        (#[trigger] value_of(state, key)) matches Some(st) ==> (local_at(local, key) matches Some(
            entry,
        ) && !local_changed(st, entry)) && (doc_with(docs, st.uuid) matches Some(doc)
            && !remote_changed(st, doc))
    &&& forall|i: int|
        0 <= i < local.len() ==> value_of(state, (#[trigger] local[i]).rel_path) is Some
    &&& forall|i: int| 0 <= i < docs.len() ==> is_mapped(state, (#[trigger] docs[i]).uuid)
}

proof fn settled_has_nothing_loose(
    docs: Seq<RemoteView>,
    n: nat,
    state: Seq<(Seq<char>, StateView)>,
)
    requires
        n <= docs.len(),
        forall|i: int| 0 <= i < docs.len() ==> is_mapped(state, (#[trigger] docs[i]).uuid),
    ensures
        loose_paths(docs, n, state).len() == 0,
        tracked_notes(docs, n, state).len() == 0,
    decreases n,
{
    if n > 0 {
        settled_has_nothing_loose(docs, (n - 1) as nat, state);
        assert(is_mapped(state, docs[n - 1].uuid));
    }
}

pub(crate) proof fn nothing_decided_nothing_filled(
    options: SyncOptions,
    remote: SnapshotView,
    rows: Seq<RowView>,
    n: nat,
    notes: Seq<ActionView>,
)
    requires
        n <= rows.len(),
        forall|i: int|
            0 <= i < rows.len() ==> row_decision(options, #[trigger] rows[i]) == Decision::Nothing,
    ensures
        filled(options, remote, rows, n, notes) == (BucketsView {
            transfers: Seq::empty(),
            deletes: Seq::empty(),
            forgets: Seq::empty(),
            notes,
        }),
    decreases n,
{
    if n > 0 {
        nothing_decided_nothing_filled(options, remote, rows, (n - 1) as nat, notes);
        assert(row_decision(options, rows[n - 1]) == Decision::Nothing);
    }
}

/// A sync right after a sync does nothing: where both sides are as recorded, the plan holds the
/// skipped items of the snapshot only.
pub proof fn settled_sides_need_no_actions(
    options: SyncOptions,
    local: Seq<LocalView>,
    remote: SnapshotView,
    state: Seq<(Seq<char>, StateView)>,
)
    requires
        is_settled(local, remote.docs, state),
    ensures
        planned(options, local, remote, state) == remote.skips,
{
    let rows = plan_rows(local, remote.docs, state);
    let ks = plan_keys(local, remote.docs, state);
    let all = keys(state) + local_paths(local) + loose_paths(
        remote.docs,
        remote.docs.len(),
        state,
    );
    let notes = remote.skips + tracked_notes(remote.docs, remote.docs.len(), state);
    settled_has_nothing_loose(remote.docs, remote.docs.len(), state);
    sort_dedup_is_ascending(all);
    assert forall|i: int| 0 <= i < rows.len() implies row_decision(options, #[trigger] rows[i])
        == Decision::Nothing by {
        let key = ks[i];
        assert(ks.contains(key));
        assert(all.contains(key));
        let k = choose|k: int| 0 <= k < all.len() && all[k] == key;
        if k < state.len() {
            assert(keys(state)[k] == key);
            assert(keys(state).contains(key));
            value_of_is_keyed(state, key);
        } else {
            assert(local[k - state.len()].rel_path == key);
        }
        assert(value_of(state, key) is Some);
        assert(rows[i] == row_of(local, remote.docs, state, key));
    }
    nothing_decided_nothing_filled(options, remote, rows, rows.len(), notes);
    let b = plan_buckets(options, local, remote, state);
    let needed = needed_dirs(b.transfers, b.transfers.len(), remote.folders);
    assert(needed.len() == 0);
    assert(sort_dedup(needed).len() == 0);
    assert(planned(options, local, remote, state) =~= remote.skips);
}

proof fn prefixes_before_members(path: Seq<char>, n: nat, x: Seq<char>)
    requires
        n <= path.len(),
    ensures
        prefixes_before(path, n).contains(x) <==> exists|i: int|
            0 <= i < n && #[trigger] path[i] == '/' && x == path.take(i),
    decreases n,
{
    if n > 0 {
        prefixes_before_members(path, (n - 1) as nat, x);
        let before = prefixes_before(path, (n - 1) as nat);
        let now = prefixes_before(path, n);
        if now.contains(x) {
            let k = choose|k: int| 0 <= k < now.len() && now[k] == x;
            if k < before.len() {
                assert(before[k] == x);
            } else {
                assert(path[n - 1] == '/' && x == path.take(n - 1));
            }
        }
        if exists|i: int| 0 <= i < n && #[trigger] path[i] == '/' && x == path.take(i) {
            let i = choose|i: int| 0 <= i < n && #[trigger] path[i] == '/' && x == path.take(i);
            if i < n - 1 {
                assert(before.contains(x));
                let k = choose|k: int| 0 <= k < before.len() && before[k] == x;
                assert(now[k] == x);
            } else {
                assert(now[before.len() as int] == x);
            }
        }
    }
}

proof fn proper_prefix_comes_first(x: Seq<char>, n: int)
    requires
        0 <= n < x.len(),
    ensures
        lex_lt(x.take(n), x),
    decreases n,
{
    if n > 0 {
        assert(x.take(n).drop_first() =~= x.drop_first().take(n - 1));
        proper_prefix_comes_first(x.drop_first(), n - 1);
    }
}

/// The directory around a prefix of a path is a prefix too, and comes before it.
proof fn prefixes_are_nested(path: Seq<char>, x: Seq<char>)
    requires
        prefixes(path).contains(x),
        split_dir(x).0.len() > 0,
    ensures
        prefixes(path).contains(split_dir(x).0),
        lex_lt(split_dir(x).0, x),
{
    let all = prefixes(path);
    let before = prefixes_before(path, path.len());
    let k = choose|k: int| 0 <= k < all.len() && all[k] == x;
    prefixes_before_members(path, path.len(), x);
    find_last_is_last(x, Class::Only('/'));
    let j = find_last(x, Class::Only('/'));
    assert(0 <= j < x.len());
    assert(split_dir(x).0 == x.take(j));
    assert(x[j] == '/');
    let m = if k < before.len() {
        assert(before[k] == x);
        choose|i: int| 0 <= i < path.len() && #[trigger] path[i] == '/' && x == path.take(i)
    } else {
        assert(x == path);
        assert(path.take(path.len() as int) =~= path);
        path.len() as int
    };
    assert(x == path.take(m));
    assert(path[j] == '/');
    assert(x.take(j) =~= path.take(j));
    prefixes_before_members(path, path.len(), x.take(j));
    assert(before.contains(x.take(j)));
    let i = choose|i: int| 0 <= i < before.len() && before[i] == x.take(j);
    assert(all[i] == x.take(j));
    proper_prefix_comes_first(x, j);
}

proof fn missing_dirs_members(
    dirs: Seq<Seq<char>>,
    n: nat,
    folders: Seq<(Seq<char>, Seq<char>)>,
    x: Seq<char>,
)
    requires
        n <= dirs.len(),
    ensures
        missing_dirs(dirs, n, folders).contains(x) <==> dirs.take(n as int).contains(x) && value_of(
            folders,
            x,
        ) is None,
    decreases n,
{
    if n > 0 {
        missing_dirs_members(dirs, (n - 1) as nat, folders, x);
        let before = missing_dirs(dirs, (n - 1) as nat, folders);
        let now = missing_dirs(dirs, n, folders);
        let whole = dirs.take(n as int);
        let earlier = dirs.take(n - 1);
        if now.contains(x) {
            let k = choose|k: int| 0 <= k < now.len() && now[k] == x;
            if k < before.len() {
                assert(before.contains(x));
                let i = choose|i: int| 0 <= i < earlier.len() && earlier[i] == x;
                assert(whole[i] == x);
            } else {
                assert(whole[n - 1] == x);
            }
        }
        if whole.contains(x) && value_of(folders, x) is None {
            let i = choose|i: int| 0 <= i < whole.len() && whole[i] == x;
            if i < n - 1 {
                assert(earlier[i] == x);
                let k = choose|k: int| 0 <= k < before.len() && before[k] == x;
                assert(now[k] == x);
            } else {
                assert(now[before.len() as int] == x);
            }
        }
    }
}

/// Whether `x` is a prefix of the directory that one of the first `n` transfers uploads to.
pub open spec fn is_upload_dir(transfers: Seq<ActionView>, n: nat, x: Seq<char>) -> bool {
    exists|k: int|
        0 <= k < n && (#[trigger] transfers[k] matches ActionView::Upload { remote_dir, .. }
            && prefixes(remote_dir).contains(x))
}

pub(crate) proof fn needed_dirs_members(
    transfers: Seq<ActionView>,
    n: nat,
    folders: Seq<(Seq<char>, Seq<char>)>,
    x: Seq<char>,
)
    requires
        n <= transfers.len(),
    ensures
        needed_dirs(transfers, n, folders).contains(x) <==> is_upload_dir(transfers, n, x)
            && value_of(folders, x) is None,
    decreases n,
{
    if n > 0 {
        needed_dirs_members(transfers, (n - 1) as nat, folders, x);
        let before = needed_dirs(transfers, (n - 1) as nat, folders);
        let now = needed_dirs(transfers, n, folders);
        match transfers[n - 1] {
            ActionView::Upload { remote_dir, .. } => {
                let dirs = prefixes(remote_dir);
                let more = missing_dirs(dirs, dirs.len(), folders);
                missing_dirs_members(dirs, dirs.len(), folders, x);
                assert(dirs.take(dirs.len() as int) =~= dirs);
                assert(now == before + more);
                if now.contains(x) {
                    let k = choose|k: int| 0 <= k < now.len() && now[k] == x;
                    if k < before.len() {
                        assert(before[k] == x);
                        assert(before.contains(x));
                        let i = choose|i: int|
                            0 <= i < n - 1 && (
                            #[trigger] transfers[i] matches ActionView::Upload { remote_dir, .. }
                                && prefixes(remote_dir).contains(x));
                        assert(transfers[i] is Upload);
                    } else {
                        assert(more[k - before.len()] == x);
                        assert(more.contains(x));
                        assert(transfers[n - 1] is Upload);
                    }
                }
                if is_upload_dir(transfers, n, x) && value_of(folders, x) is None {
                    let i = choose|i: int|
                        0 <= i < n && (
                        #[trigger] transfers[i] matches ActionView::Upload { remote_dir, .. }
                            && prefixes(remote_dir).contains(x));
                    if i < n - 1 {
                        assert(is_upload_dir(transfers, (n - 1) as nat, x));
                        let k = choose|k: int| 0 <= k < before.len() && before[k] == x;
                        assert(now[k] == x);
                    } else {
                        assert(more.contains(x));
                        let k = choose|k: int| 0 <= k < more.len() && more[k] == x;
                        assert(now[before.len() + k] == x);
                    }
                }
            },
            _ => {
                assert(now == before);
                if is_upload_dir(transfers, (n - 1) as nat, x) {
                    let i = choose|i: int|
                        0 <= i < n - 1 && (
                        #[trigger] transfers[i] matches ActionView::Upload { remote_dir, .. }
                            && prefixes(remote_dir).contains(x));
                    assert(transfers[i] is Upload);
                }
                if is_upload_dir(transfers, n, x) {
                    let i = choose|i: int|
                        0 <= i < n && (
                        #[trigger] transfers[i] matches ActionView::Upload { remote_dir, .. }
                            && prefixes(remote_dir).contains(x));
                    assert(i < n - 1);
                    assert(is_upload_dir(transfers, (n - 1) as nat, x));
                }
            },
        }
    }
}

/// Whether a directory is there when the action at position `p` comes: it was before, or an
/// earlier action creates it.
pub open spec fn is_there_at(
    actions: Seq<ActionView>,
    folders: Seq<(Seq<char>, Seq<char>)>,
    p: int,
    dir: Seq<char>,
) -> bool {
    value_of(folders, dir) is Some || exists|q: int|
        0 <= q < p && #[trigger] actions[q] == (ActionView::CreateRemoteFolder { rel_dir: dir })
}

/// When an upload comes, its directory is there; when a folder is created, the folder around it is
/// there and the folder itself is not.
pub proof fn folders_are_there_in_time(
    options: SyncOptions,
    local: Seq<LocalView>,
    remote: SnapshotView,
    state: Seq<(Seq<char>, StateView)>,
    p: int,
)
    requires
        forall|i: int| 0 <= i < remote.skips.len() ==> (#[trigger] remote.skips[i]) is Skip,
        value_of(remote.folders, Seq::empty()) is Some,
        0 <= p < planned(options, local, remote, state).len(),
    ensures
        planned(options, local, remote, state)[p] matches ActionView::Upload { remote_dir, .. }
            ==> is_there_at(
            planned(options, local, remote, state),
            remote.folders,
            p,
            remote_dir,
        ),
        planned(options, local, remote, state)[p] matches ActionView::CreateRemoteFolder { rel_dir }
            ==> is_there_at(
            planned(options, local, remote, state),
            remote.folders,
            p,
            split_dir(rel_dir).0,
        ) && !is_there_at(planned(options, local, remote, state), remote.folders, p, rel_dir),
{
    planned_parts(options, local, remote, state);
    let b = plan_buckets(options, local, remote, state);
    let needed = needed_dirs(b.transfers, b.transfers.len(), remote.folders);
    let dirs = sort_dedup(needed);
    let c = creations(dirs);
    let actions = planned(options, local, remote, state);
    let n0 = c.len() as int;
    let n1 = n0 + b.transfers.len();
    sort_dedup_is_ascending(needed);
    match actions[p] {
        ActionView::Upload { remote_dir, .. } => {
            if p >= n1 {
                if p < n1 + b.deletes.len() {
                    assert(actions[p] == b.deletes[p - n1]);
                } else if p < n1 + b.deletes.len() + b.forgets.len() {
                    assert(actions[p] == b.forgets[p - n1 - b.deletes.len()]);
                } else {
                    assert(actions[p] == b.notes[p - n1 - b.deletes.len() - b.forgets.len()]);
                }
                assert(false);
            }
            if p < n0 {
                assert(actions[p] == c[p]);
                assert(false);
            }
            let k = p - n0;
            assert(actions[p] == b.transfers[k]);
            if remote_dir.len() == 0 {
                assert(remote_dir =~= Seq::empty());
            } else if value_of(remote.folders, remote_dir) is None {
                let all = prefixes(remote_dir);
                assert(all[all.len() - 1] == remote_dir);
                assert(all.contains(remote_dir));
                assert(b.transfers[k] is Upload);
                assert(is_upload_dir(b.transfers, b.transfers.len(), remote_dir));
                needed_dirs_members(
                    b.transfers,
                    b.transfers.len(),
                    remote.folders,
                    remote_dir,
                );
                assert(dirs.contains(remote_dir));
                let q = choose|q: int| 0 <= q < dirs.len() && dirs[q] == remote_dir;
                assert(actions[q] == c[q]);
                assert(c[q] == (ActionView::CreateRemoteFolder { rel_dir: remote_dir }));
            }
        },
        ActionView::CreateRemoteFolder { rel_dir } => {
            if p >= n0 {
                if p < n1 {
                    assert(actions[p] == b.transfers[p - n0]);
                } else if p < n1 + b.deletes.len() {
                    assert(actions[p] == b.deletes[p - n1]);
                } else if p < n1 + b.deletes.len() + b.forgets.len() {
                    assert(actions[p] == b.forgets[p - n1 - b.deletes.len()]);
                } else {
                    assert(actions[p] == b.notes[p - n1 - b.deletes.len() - b.forgets.len()]);
                }
                assert(false);
            }
            assert(actions[p] == c[p]);
            assert(dirs[p] == rel_dir);
            assert(dirs.contains(rel_dir));
            assert(needed.contains(rel_dir));
            needed_dirs_members(b.transfers, b.transfers.len(), remote.folders, rel_dir);
            assert forall|q: int| 0 <= q < p implies #[trigger] actions[q] != (
            ActionView::CreateRemoteFolder { rel_dir }) by {
                assert(actions[q] == c[q]);
                assert(lex_lt(dirs[q], dirs[p]));
                lex_irreflexive(rel_dir);
            }
            let around = split_dir(rel_dir).0;
            if around.len() == 0 {
                assert(around =~= Seq::empty());
            } else if value_of(remote.folders, around) is None {
                let k = choose|k: int|
                    0 <= k < b.transfers.len() && (
                    #[trigger] b.transfers[k] matches ActionView::Upload { remote_dir, .. }
                        && prefixes(remote_dir).contains(rel_dir));
                let remote_dir = b.transfers[k]->Upload_remote_dir;
                prefixes_are_nested(remote_dir, rel_dir);
                assert(b.transfers[k] is Upload);
                assert(is_upload_dir(b.transfers, b.transfers.len(), around));
                needed_dirs_members(b.transfers, b.transfers.len(), remote.folders, around);
                assert(dirs.contains(around));
                let q = choose|q: int| 0 <= q < dirs.len() && dirs[q] == around;
                if q >= p {
                    if q > p {
                        assert(lex_lt(dirs[p], dirs[q]));
                        lex_transitive(rel_dir, around, rel_dir);
                    }
                    lex_irreflexive(rel_dir);
                }
                assert(actions[q] == c[q]);
                assert(c[q] == (ActionView::CreateRemoteFolder { rel_dir: around }));
            }
        },
        _ => {},
    }
}

} // verus!
