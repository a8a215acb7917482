//! What a sync leaves behind once all of its actions have been applied.
use vstd::prelude::*;
use crate::execute::{mapped_by, reported_file, reports_on, state_after, DoneView};
use crate::pathmap::{
    drop_key_clears_one_key, keys, put_sets_one_key, value_of, value_of_at, value_of_is_keyed,
};
use crate::plan::{
    creations, doc_with, filled, has_loose, is_mapped, local_at, local_changed, local_paths, loose_doc,
    loose_paths, needed_dirs, plan_buckets, plan_keys, plan_rows, planned, remote_changed,
    row_decision, row_of, row_uuid, tracked_notes, Decision, RowView,
};
use crate::plan_laws::{
    actions_follow_decisions, decisions_have_grounds, delete_origin, doc_with_has_uuid, filled_step,
    is_settled, nothing_decided_nothing_filled, planned_parts, row_buckets, settled_sides_need_no_actions, stage, transfer_origin,
};
use crate::sync::{
    is_change, ActionView, LocalView, Mode, RemoteView, SnapshotView, StateView,
    SyncOptions,
};
use crate::text::{ascending, lex_irreflexive, sort_dedup, sort_dedup_is_ascending};

verus! {

/// The path whose mapping an action changes.
pub open spec fn subject(action: ActionView) -> Option<Seq<char>> {
    match action {
        ActionView::Upload { local, .. } => Some(local),
        ActionView::UpdateRemote { local, .. } => Some(local),
        ActionView::Download { local, .. } => Some(local),
        ActionView::DeleteRemote { path, .. } => Some(path),
        ActionView::DeleteLocal { path } => Some(path),
        ActionView::Forget { path } => Some(path),
        _ => None,
    }
}

/// What is recorded of the path behind an action: a mapping for a transfer, nothing otherwise.
pub open spec fn recorded(action: ActionView, done: DoneView) -> Option<StateView> {
    match mapped_by(action, done) {
        Some((_, uuid, kind, last_modified)) => Some(
            StateView {
                uuid,
                kind,
                local_size: reported_file(done).0,
                local_mtime_ms: reported_file(done).1,
                remote_last_modified: last_modified,
            },
        ),
        None => None,
    }
}

/// The state once the first `p` actions have been applied and reported.
pub open spec fn state_at(
    actions: Seq<ActionView>,
    state: Seq<(Seq<char>, StateView)>,
    reports: Seq<DoneView>,
    p: nat,
) -> Seq<(Seq<char>, StateView)>
    decreases p,
{
    if p == 0 {
        state
    } else {
        state_after(state_at(actions, state, reports, (p - 1) as nat), actions[p - 1], reports[p - 1])
    }
}

/// Whether every action has a report that it can have.
pub open spec fn all_reported(actions: Seq<ActionView>, reports: Seq<DoneView>) -> bool {
    &&& reports.len() == actions.len()
    &&& forall|q: int|
        0 <= q < actions.len() ==> reports_on(#[trigger] reports[q], #[trigger] actions[q])
}

/// One action changes the mapping of its own path only.
proof fn action_records(state: Seq<(Seq<char>, StateView)>, action: ActionView, done: DoneView)
    requires
        ascending(keys(state)),
        reports_on(done, action),
    ensures
        ascending(keys(state_after(state, action, done))),
        forall|k: Seq<char>| #[trigger]
            value_of(state_after(state, action, done), k) == if subject(action) == Some(k) {
                recorded(action, done)
            } else {
                value_of(state, k)
            },
{
    match subject(action) {
        Some(path) => {
            match recorded(action, done) {
                Some(st) => {
                    put_sets_one_key(state, path, st);
                },
                None => {
                    drop_key_clears_one_key(state, path);
                },
            }
        },
        None => {},
    }
}

/// The mapping of a path changes with the actions on that path only.
proof fn untouched_paths_keep_their_mapping(
    actions: Seq<ActionView>,
    state: Seq<(Seq<char>, StateView)>,
    reports: Seq<DoneView>,
    p: nat,
    from: nat,
    key: Seq<char>,
)
    requires
        ascending(keys(state)),
        all_reported(actions, reports),
        from <= p <= actions.len(),
        forall|r: int| from <= r < p ==> subject(#[trigger] actions[r]) != Some(key),
    ensures
        ascending(keys(state_at(actions, state, reports, p))),
        value_of(state_at(actions, state, reports, p), key) == value_of(
            state_at(actions, state, reports, from),
            key,
        ),
    decreases p,
{
    if p > 0 {
        if from < p {
            untouched_paths_keep_their_mapping(
                actions,
                state,
                reports,
                (p - 1) as nat,
                from,
                key,
            );
        } else {
            untouched_paths_keep_their_mapping(
                actions,
                state,
                reports,
                (p - 1) as nat,
                (p - 1) as nat,
                key,
            );
        }
        assert(reports_on(reports[p - 1], actions[p - 1]));
        action_records(
            state_at(actions, state, reports, (p - 1) as nat),
            actions[p - 1],
            reports[p - 1],
        );
    }
}

/// Whether each path is the subject of one action at most.
pub open spec fn handles_paths_once(actions: Seq<ActionView>) -> bool {
    forall|q: int, r: int|
        0 <= q < r < actions.len() && subject(#[trigger] actions[q]) is Some ==> subject(
            actions[q],
        ) != subject(#[trigger] actions[r])
}

/// Where each path is handled once, the final state holds of a handled path what its action
/// recorded.
proof fn handled_paths_are_recorded(
    actions: Seq<ActionView>,
    state: Seq<(Seq<char>, StateView)>,
    reports: Seq<DoneView>,
    q: int,
    key: Seq<char>,
)
    requires
        ascending(keys(state)),
        all_reported(actions, reports),
        handles_paths_once(actions),
        0 <= q < actions.len(),
        subject(actions[q]) == Some(key),
    ensures
        value_of(state_at(actions, state, reports, actions.len()), key) == recorded(
            actions[q],
            reports[q],
        ),
{
    assert forall|r: int| q + 1 <= r < actions.len() implies subject(#[trigger] actions[r]) != Some(
        key,
    ) by {
        assert(subject(actions[q]) != subject(actions[r]));
    }
    untouched_paths_keep_their_mapping(
        actions,
        state,
        reports,
        actions.len(),
        (q + 1) as nat,
        key,
    );
    untouched_paths_keep_their_mapping(actions, state, reports, q as nat, q as nat, key);
    assert(reports_on(reports[q], actions[q]));
    action_records(state_at(actions, state, reports, q as nat), actions[q], reports[q]);
}

/// Whether a row alone leads to the action.
pub open spec fn row_acts(
    options: SyncOptions,
    remote: SnapshotView,
    rows: Seq<RowView>,
    i: int,
    x: ActionView,
) -> bool {
    let one = row_buckets(options, remote, rows, i);
    one.transfers == seq![x] || one.deletes == seq![x] || one.forgets == seq![x]
}

/// A row leads to one action at most, and that action is about its path.
pub(crate) proof fn rows_act_once(
    options: SyncOptions,
    remote: SnapshotView,
    rows: Seq<RowView>,
    i: int,
    x: ActionView,
)
    requires
        row_acts(options, remote, rows, i, x),
    ensures
        subject(x) == Some(rows[i].key),
        ({
            let one = row_buckets(options, remote, rows, i);
            &&& one.transfers == (if stage(x) == 1 {
                seq![x]
            } else {
                Seq::empty()
            })
            &&& one.deletes == (if stage(x) == 2 {
                seq![x]
            } else {
                Seq::empty()
            })
            &&& one.forgets == (if stage(x) == 3 {
                seq![x]
            } else {
                Seq::empty()
            })
        }),
        forall|y: ActionView| row_acts(options, remote, rows, i, y) ==> x == y,
{
    assert(seq![x][0] == x);
    let one = row_buckets(options, remote, rows, i);
    match row_decision(options, rows[i]) {
        Decision::Nothing => {
            assert(one.transfers.len() == 0 && one.deletes.len() == 0 && one.forgets.len() == 0);
        },
        Decision::Upload => {
            assert(one.deletes.len() == 0 && one.forgets.len() == 0);
            assert(one.transfers[0] == x);
        },
        Decision::Update => {
            assert(one.deletes.len() == 0 && one.forgets.len() == 0);
            assert(one.transfers[0] == x);
        },
        Decision::Download => {
            assert(one.deletes.len() == 0 && one.forgets.len() == 0);
            assert(one.transfers[0] == x);
        },
        Decision::DeleteRemote => {
            assert(one.transfers.len() == 0 && one.forgets.len() == 0);
            assert(one.deletes[0] == x);
        },
        Decision::DeleteLocal => {
            assert(one.transfers.len() == 0 && one.forgets.len() == 0);
            assert(one.deletes[0] == x);
        },
        Decision::Forget => {
            assert(one.transfers.len() == 0 && one.deletes.len() == 0);
            assert(one.forgets[0] == x);
        },
        Decision::Release(_) => {
            assert(one.transfers.len() == 0 && one.deletes.len() == 0);
            assert(one.forgets[0] == x);
        },
        Decision::Conflict(_) => {
            assert(one.transfers.len() == 0 && one.deletes.len() == 0 && one.forgets.len() == 0);
        },
        Decision::Skip(_) => {
            assert(one.transfers.len() == 0 && one.deletes.len() == 0 && one.forgets.len() == 0);
        },
    }
    assert forall|y: ActionView| row_acts(options, remote, rows, i, y) implies x == y by {
        assert(seq![y][0] == y);
    }
}

/// A forgotten mapping comes from one of the rows.
proof fn forget_origin(
    options: SyncOptions,
    remote: SnapshotView,
    rows: Seq<RowView>,
    n: nat,
    notes: Seq<ActionView>,
    x: ActionView,
) -> (i: int)
    requires
        n <= rows.len(),
        filled(options, remote, rows, n, notes).forgets.contains(x),
    ensures
        0 <= i < n,
        row_buckets(options, remote, rows, i).forgets == seq![x],
    decreases n,
{
    let now = filled(options, remote, rows, n, notes).forgets;
    let k = choose|k: int| 0 <= k < now.len() && now[k] == x;
    filled_step(options, remote, rows, n, notes);
    let before = filled(options, remote, rows, (n - 1) as nat, notes).forgets;
    if k < before.len() {
        assert(before[k] == x);
        forget_origin(options, remote, rows, (n - 1) as nat, notes, x)
    } else {
        assert(row_buckets(options, remote, rows, n - 1).forgets =~= seq![x]);
        n - 1
    }
}

/// Whether no two actions of a list have the same subject.
pub open spec fn distinct_subjects(actions: Seq<ActionView>) -> bool {
    forall|a: int, b: int|
        0 <= a < b < actions.len() ==> subject(#[trigger] actions[a]) != subject(
            #[trigger] actions[b],
        )
}

/// Whether the rows are about different paths.
pub open spec fn distinct_keys(rows: Seq<RowView>) -> bool {
    forall|i: int, j: int|
        0 <= i < j < rows.len() ==> (#[trigger] rows[i]).key != (#[trigger] rows[j]).key
}

proof fn buckets_have_distinct_subjects(
    options: SyncOptions,
    remote: SnapshotView,
    rows: Seq<RowView>,
    n: nat,
    notes: Seq<ActionView>,
)
    requires
        n <= rows.len(),
        distinct_keys(rows),
    ensures
        ({
            let b = filled(options, remote, rows, n, notes);
            &&& distinct_subjects(b.transfers)
            &&& distinct_subjects(b.deletes)
            &&& distinct_subjects(b.forgets)
        }),
    decreases n,
{
    if n > 0 {
        let m = (n - 1) as nat;
        buckets_have_distinct_subjects(options, remote, rows, m, notes);
        filled_step(options, remote, rows, n, notes);
        let before = filled(options, remote, rows, m, notes);
        let now = filled(options, remote, rows, n, notes);
        let one = row_buckets(options, remote, rows, n - 1);
        assert forall|a: int, b: int| 0 <= a < b < now.transfers.len() implies subject(
            #[trigger] now.transfers[a],
        ) != subject(#[trigger] now.transfers[b]) by {
            assert(now.transfers[a] == before.transfers[a]);
            if b < before.transfers.len() {
                assert(now.transfers[b] == before.transfers[b]);
            } else {
                let x = now.transfers[b];
                assert(one.transfers =~= seq![x]);
                rows_act_once(options, remote, rows, n - 1, x);
                assert(before.transfers.contains(before.transfers[a]));
                let i = transfer_origin(options, remote, rows, m, notes, before.transfers[a]);
                rows_act_once(options, remote, rows, i, before.transfers[a]);
                assert(rows[i].key != rows[n - 1].key);
            }
        }
        assert forall|a: int, b: int| 0 <= a < b < now.deletes.len() implies subject(
            #[trigger] now.deletes[a],
        ) != subject(#[trigger] now.deletes[b]) by {
            assert(now.deletes[a] == before.deletes[a]);
            if b < before.deletes.len() {
                assert(now.deletes[b] == before.deletes[b]);
            } else {
                let x = now.deletes[b];
                assert(one.deletes =~= seq![x]);
                rows_act_once(options, remote, rows, n - 1, x);
                assert(before.deletes.contains(before.deletes[a]));
                let i = delete_origin(options, remote, rows, m, notes, before.deletes[a]);
                rows_act_once(options, remote, rows, i, before.deletes[a]);
                assert(rows[i].key != rows[n - 1].key);
            }
        }
        assert forall|a: int, b: int| 0 <= a < b < now.forgets.len() implies subject(
            #[trigger] now.forgets[a],
        ) != subject(#[trigger] now.forgets[b]) by {
            assert(now.forgets[a] == before.forgets[a]);
            if b < before.forgets.len() {
                assert(now.forgets[b] == before.forgets[b]);
            } else {
                let x = now.forgets[b];
                assert(one.forgets =~= seq![x]);
                rows_act_once(options, remote, rows, n - 1, x);
                assert(before.forgets.contains(before.forgets[a]));
                let i = forget_origin(options, remote, rows, m, notes, before.forgets[a]);
                rows_act_once(options, remote, rows, i, before.forgets[a]);
                assert(rows[i].key != rows[n - 1].key);
            }
        }
    }
}

pub(crate) proof fn plan_rows_have_distinct_keys(
    local: Seq<LocalView>,
    docs: Seq<RemoteView>,
    state: Seq<(Seq<char>, StateView)>,
)
    ensures
        distinct_keys(plan_rows(local, docs, state)),
{
    let rows = plan_rows(local, docs, state);
    let ks = plan_keys(local, docs, state);
    sort_dedup_is_ascending(keys(state) + local_paths(local) + loose_paths(docs, docs.len(), state));
    assert forall|i: int, j: int| 0 <= i < j < rows.len() implies (#[trigger] rows[i]).key != (
    #[trigger] rows[j]).key by {
        assert(rows[i].key == ks[i] && rows[j].key == ks[j]);
        lex_irreflexive(ks[i]);
    }
}

/// The row that leads to the action at a position of a plan, and the place of that action among
/// those of its stage.
pub(crate) proof fn position_origin(
    options: SyncOptions,
    local: Seq<LocalView>,
    remote: SnapshotView,
    state: Seq<(Seq<char>, StateView)>,
    q: int,
) -> (r: (int, int))
    requires
        forall|i: int| 0 <= i < remote.skips.len() ==> (#[trigger] remote.skips[i]) is Skip,
        0 <= q < planned(options, local, remote, state).len(),
        subject(planned(options, local, remote, state)[q]) is Some,
    ensures
        ({
            let x = planned(options, local, remote, state)[q];
            let b = plan_buckets(options, local, remote, state);
            let folders = needed_dirs(b.transfers, b.transfers.len(), remote.folders);
            let n0 = sort_dedup(folders).len() as int;
            let rows = plan_rows(local, remote.docs, state);
            &&& 0 <= r.0 < rows.len()
            &&& row_acts(options, remote, rows, r.0, x)
            &&& stage(x) == 1 ==> 0 <= r.1 < b.transfers.len() && b.transfers[r.1] == x && q == n0
                + r.1
            &&& stage(x) == 2 ==> 0 <= r.1 < b.deletes.len() && b.deletes[r.1] == x && q == n0
                + b.transfers.len() + r.1
            &&& stage(x) == 3 ==> 0 <= r.1 < b.forgets.len() && b.forgets[r.1] == x && q == n0
                + b.transfers.len() + b.deletes.len() + r.1
            &&& 1 <= stage(x) <= 3
        }),
{
    planned_parts(options, local, remote, state);
    let rows = plan_rows(local, remote.docs, state);
    let notes = remote.skips + tracked_notes(remote.docs, remote.docs.len(), state);
    let b = plan_buckets(options, local, remote, state);
    let dirs = sort_dedup(needed_dirs(b.transfers, b.transfers.len(), remote.folders));
    let c = creations(dirs);
    let p = planned(options, local, remote, state);
    let x = p[q];
    let n0 = c.len() as int;
    let n1 = n0 + b.transfers.len();
    let n2 = n1 + b.deletes.len();
    let n3 = n2 + b.forgets.len();
    if q < n0 {
        assert(p[q] == c[q]);
        (0, 0)
    } else if q < n1 {
        assert(p[q] == b.transfers[q - n0]);
        assert(b.transfers.contains(x));
        (transfer_origin(options, remote, rows, rows.len(), notes, x), q - n0)
    } else if q < n2 {
        assert(p[q] == b.deletes[q - n1]);
        assert(b.deletes.contains(x));
        (delete_origin(options, remote, rows, rows.len(), notes, x), q - n1)
    } else if q < n3 {
        assert(p[q] == b.forgets[q - n2]);
        assert(b.forgets.contains(x));
        (forget_origin(options, remote, rows, rows.len(), notes, x), q - n2)
    } else {
        assert(p[q] == b.notes[q - n3]);
        (0, 0)
    }
}

/// A plan handles each path once: no path is transferred, deleted or forgotten twice.
pub proof fn paths_are_handled_once(
    options: SyncOptions,
    local: Seq<LocalView>,
    remote: SnapshotView,
    state: Seq<(Seq<char>, StateView)>,
)
    requires
        forall|i: int| 0 <= i < remote.skips.len() ==> (#[trigger] remote.skips[i]) is Skip,
    ensures
        handles_paths_once(planned(options, local, remote, state)),
{
    let p = planned(options, local, remote, state);
    let rows = plan_rows(local, remote.docs, state);
    let notes = remote.skips + tracked_notes(remote.docs, remote.docs.len(), state);
    plan_rows_have_distinct_keys(local, remote.docs, state);
    buckets_have_distinct_subjects(options, remote, rows, rows.len(), notes);
    assert forall|q: int, r: int| 0 <= q < r < p.len() && subject(#[trigger] p[q]) is Some implies
        subject(p[q]) != subject(#[trigger] p[r]) by {
        if subject(p[q]) == subject(p[r]) {
            let (i, a) = position_origin(options, local, remote, state, q);
            let (j, b) = position_origin(options, local, remote, state, r);
            rows_act_once(options, remote, rows, i, p[q]);
            rows_act_once(options, remote, rows, j, p[r]);
            if i != j {
                assert(rows[i].key != rows[j].key);
            }
            assert(p[q] == p[r]);
        }
    }
}

/// What a row leads to stands in the buckets.
proof fn filled_holds_rows(
    options: SyncOptions,
    remote: SnapshotView,
    rows: Seq<RowView>,
    n: nat,
    notes: Seq<ActionView>,
    i: int,
    x: ActionView,
)
    requires
        0 <= i < n <= rows.len(),
    ensures
        ({
            let b = filled(options, remote, rows, n, notes);
            let one = row_buckets(options, remote, rows, i);
            &&& one.transfers == seq![x] ==> b.transfers.contains(x)
            &&& one.deletes == seq![x] ==> b.deletes.contains(x)
            &&& one.forgets == seq![x] ==> b.forgets.contains(x)
        }),
    decreases n,
{
    filled_step(options, remote, rows, n, notes);
    let before = filled(options, remote, rows, (n - 1) as nat, notes);
    let now = filled(options, remote, rows, n, notes);
    let one = row_buckets(options, remote, rows, i);
    assert(seq![x][0] == x);
    if i < n - 1 {
        filled_holds_rows(options, remote, rows, (n - 1) as nat, notes, i, x);
        if one.transfers == seq![x] {
            let k = choose|k: int| 0 <= k < before.transfers.len() && before.transfers[k] == x;
            assert(now.transfers[k] == x);
        }
        if one.deletes == seq![x] {
            let k = choose|k: int| 0 <= k < before.deletes.len() && before.deletes[k] == x;
            assert(now.deletes[k] == x);
        }
        if one.forgets == seq![x] {
            let k = choose|k: int| 0 <= k < before.forgets.len() && before.forgets[k] == x;
            assert(now.forgets[k] == x);
        }
    } else {
        if one.transfers == seq![x] {
            assert(now.transfers[before.transfers.len() as int] == x);
        }
        if one.deletes == seq![x] {
            assert(now.deletes[before.deletes.len() as int] == x);
        }
        if one.forgets == seq![x] {
            assert(now.forgets[before.forgets.len() as int] == x);
        }
    }
}

/// The position in a plan of the action that a row leads to.
pub(crate) proof fn row_position(
    options: SyncOptions,
    local: Seq<LocalView>,
    remote: SnapshotView,
    state: Seq<(Seq<char>, StateView)>,
    i: int,
    x: ActionView,
) -> (q: int)
    requires
        0 <= i < plan_rows(local, remote.docs, state).len(),
        row_acts(options, remote, plan_rows(local, remote.docs, state), i, x),
    ensures
        0 <= q < planned(options, local, remote, state).len(),
        planned(options, local, remote, state)[q] == x,
{
    let rows = plan_rows(local, remote.docs, state);
    let notes = remote.skips + tracked_notes(remote.docs, remote.docs.len(), state);
    let b = plan_buckets(options, local, remote, state);
    let dirs = sort_dedup(needed_dirs(b.transfers, b.transfers.len(), remote.folders));
    let p = planned(options, local, remote, state);
    let n0 = creations(dirs).len() as int;
    let n1 = n0 + b.transfers.len();
    let n2 = n1 + b.deletes.len();
    let one = row_buckets(options, remote, rows, i);
    filled_holds_rows(options, remote, rows, rows.len(), notes, i, x);
    if one.transfers == seq![x] {
        let k = choose|k: int| 0 <= k < b.transfers.len() && b.transfers[k] == x;
        assert(p[n0 + k] == x);
        n0 + k
    } else if one.deletes == seq![x] {
        let k = choose|k: int| 0 <= k < b.deletes.len() && b.deletes[k] == x;
        assert(p[n1 + k] == x);
        n1 + k
    } else {
        let k = choose|k: int| 0 <= k < b.forgets.len() && b.forgets[k] == x;
        assert(p[n2 + k] == x);
        n2 + k
    }
}

/// Whether a plan leaves nothing undecided: there is no conflict, and no item is skipped but the
/// `skipped` ones that the snapshot left out, which come last.
pub open spec fn decides_all(actions: Seq<ActionView>, skipped: nat) -> bool {
    forall|q: int| 0 <= q < actions.len() - skipped ==> is_change(#[trigger] actions[q])
}

/// Where nothing is left undecided, no row leaves a note.
proof fn decided_plans_have_no_notes(
    options: SyncOptions,
    local: Seq<LocalView>,
    remote: SnapshotView,
    state: Seq<(Seq<char>, StateView)>,
)
    requires
        forall|i: int| 0 <= i < remote.skips.len() ==> (#[trigger] remote.skips[i]) is Skip,
        decides_all(planned(options, local, remote, state), remote.skips.len()),
    ensures
        tracked_notes(remote.docs, remote.docs.len(), state).len() == 0,
        forall|i: int|
            0 <= i < plan_rows(local, remote.docs, state).len() ==> (#[trigger] row_buckets(
                options,
                remote,
                plan_rows(local, remote.docs, state),
                i,
            )).notes.len() == 0,
{
    planned_parts(options, local, remote, state);
    let rows = plan_rows(local, remote.docs, state);
    let notes = remote.skips + tracked_notes(remote.docs, remote.docs.len(), state);
    let b = plan_buckets(options, local, remote, state);
    let p = planned(options, local, remote, state);
    notes_are_kept(options, remote, rows, rows.len(), notes);
    if b.notes.len() > remote.skips.len() {
        let last = b.notes.len() - remote.skips.len() - 1;
        let at = p.len() - remote.skips.len() - 1;
        assert(p[at] == b.notes[last]);
        assert(stage(b.notes[last]) == 4);
        assert(is_change(p[at]));
    }
    assert forall|i: int| 0 <= i < rows.len() implies (#[trigger] row_buckets(
        options,
        remote,
        rows,
        i,
    )).notes.len() == 0 by {
        row_notes_are_filled(options, remote, rows, rows.len(), notes, i);
    }
}

proof fn row_notes_are_filled(
    options: SyncOptions,
    remote: SnapshotView,
    rows: Seq<RowView>,
    n: nat,
    notes: Seq<ActionView>,
    i: int,
)
    requires
        0 <= i < n <= rows.len(),
    ensures
        filled(options, remote, rows, n, notes).notes.len() >= notes.len() + row_buckets(
            options,
            remote,
            rows,
            i,
        ).notes.len(),
    decreases n,
{
    filled_step(options, remote, rows, n, notes);
    if i < n - 1 {
        row_notes_are_filled(options, remote, rows, (n - 1) as nat, notes, i);
    } else {
        notes_are_kept(options, remote, rows, (n - 1) as nat, notes);
    }
}

proof fn notes_are_kept(
    options: SyncOptions,
    remote: SnapshotView,
    rows: Seq<RowView>,
    n: nat,
    notes: Seq<ActionView>,
)
    requires
        n <= rows.len(),
    ensures
        filled(options, remote, rows, n, notes).notes.len() >= notes.len(),
    decreases n,
{
    if n > 0 {
        notes_are_kept(options, remote, rows, (n - 1) as nat, notes);
        filled_step(options, remote, rows, n, notes);
    }
}

/// Whether an action writes or removes the local file of a path.
pub open spec fn touches_file(action: ActionView, key: Seq<char>) -> bool {
    subject(action) == Some(key) && !(action is DeleteRemote) && !(action is Forget)
}

/// Whether an action, with its report, writes or removes the document with a UUID.
pub open spec fn touches_doc(action: ActionView, done: DoneView, uuid: Seq<char>) -> bool {
    match action {
        ActionView::Upload { .. } => done is Stored && done->Stored_uuid == uuid,
        ActionView::UpdateRemote { uuid: written, .. } => written == uuid,
        ActionView::DeleteRemote { uuid: removed, .. } => removed == uuid,
        _ => false,
    }
}

/// Whether a local file is as the actions left it: a transferred one has the size and time that
/// were reported, a deleted one is gone, and any other is as before.
pub open spec fn file_follows(
    actions: Seq<ActionView>,
    reports: Seq<DoneView>,
    local: Seq<LocalView>,
    new_local: Seq<LocalView>,
    key: Seq<char>,
) -> bool {
    &&& forall|q: int|
        0 <= q < actions.len() && touches_file(#[trigger] actions[q], key) ==> match local_at(
            new_local,
            key,
        ) {
            Some(entry) => !(actions[q] is DeleteLocal) && (entry.size, entry.mtime_ms)
                == reported_file(reports[q]),
            None => actions[q] is DeleteLocal,
        }
    &&& (forall|q: int| 0 <= q < actions.len() ==> !touches_file(#[trigger] actions[q], key))
        ==> local_at(new_local, key) == local_at(local, key)
}

/// Whether a document is as the actions left it: a written one has the time that was reported, a
/// deleted one is gone, and any other is as before.
pub open spec fn doc_follows(
    actions: Seq<ActionView>,
    reports: Seq<DoneView>,
    docs: Seq<RemoteView>,
    new_docs: Seq<RemoteView>,
    uuid: Seq<char>,
) -> bool {
    &&& forall|q: int|
        0 <= q < actions.len() && touches_doc(#[trigger] actions[q], reports[q], uuid)
            ==> match doc_with(new_docs, uuid) {
            Some(doc) => mapped_by(actions[q], reports[q]) is Some && doc.last_modified
                == mapped_by(actions[q], reports[q])->Some_0.3,
            None => actions[q] is DeleteRemote,
        }
    &&& (forall|q: int|
        0 <= q < actions.len() ==> !touches_doc(#[trigger] actions[q], reports[q], uuid))
        ==> doc_with(new_docs, uuid) == doc_with(docs, uuid)
}

/// Whether both sides are as the actions left them, and nothing else changed them meanwhile. A
/// stored document has a UUID that was not in use.
pub open spec fn carried_out(
    actions: Seq<ActionView>,
    reports: Seq<DoneView>,
    state: Seq<(Seq<char>, StateView)>,
    local: Seq<LocalView>,
    docs: Seq<RemoteView>,
    new_local: Seq<LocalView>,
    new_docs: Seq<RemoteView>,
) -> bool {
    &&& all_reported(actions, reports)
    &&& forall|q: int|
        0 <= q < actions.len() && (#[trigger] actions[q]) is Upload ==> doc_with(
            docs,
            reports[q]->Stored_uuid,
        ) is None && !is_mapped(state, reports[q]->Stored_uuid)
    &&& forall|key: Seq<char>| #[trigger] file_follows(actions, reports, local, new_local, key)
    &&& forall|uuid: Seq<char>| #[trigger] doc_follows(actions, reports, docs, new_docs, uuid)
}

/// Whether no document is mapped to two paths.
pub open spec fn maps_documents_once(state: Seq<(Seq<char>, StateView)>) -> bool {
    forall|a: Seq<char>, b: Seq<char>|
        (#[trigger] value_of(state, a)) is Some && (#[trigger] value_of(state, b)) is Some
            && value_of(state, a)->Some_0.uuid == value_of(state, b)->Some_0.uuid ==> a == b
}

/// Whether no two documents have the same UUID.
pub open spec fn distinct_documents(docs: Seq<RemoteView>) -> bool {
    forall|i: int, j: int|
        0 <= i < j < docs.len() ==> (#[trigger] docs[i]).uuid != (#[trigger] docs[j]).uuid
}

pub(crate) proof fn doc_with_at(docs: Seq<RemoteView>, i: int)
    requires
        0 <= i < docs.len(),
    ensures
        doc_with(docs, docs[i].uuid) is Some,
        distinct_documents(docs) ==> doc_with(docs, docs[i].uuid) == Some(docs[i]),
    decreases docs.len(),
{
    let rest = docs.drop_last();
    if i < docs.len() - 1 {
        doc_with_at(rest, i);
        assert(rest[i] == docs[i]);
        if distinct_documents(docs) {
            assert(docs[i].uuid != docs[docs.len() - 1].uuid);
            assert forall|a: int, b: int| 0 <= a < b < rest.len() implies (#[trigger] rest[a]).uuid
                != (#[trigger] rest[b]).uuid by {
                assert(docs[a].uuid != docs[b].uuid);
            }
        }
    }
}

proof fn local_at_of(local: Seq<LocalView>, key: Seq<char>)
    ensures
        local_at(local, key) is Some <==> local_paths(local).contains(key),
    decreases local.len(),
{
    if local.len() > 0 {
        let rest = local.drop_last();
        local_at_of(rest, key);
        if local.last().rel_path == key {
            assert(local_paths(local)[local.len() - 1] == key);
        }
        if local_paths(rest).contains(key) {
            let k = choose|k: int| 0 <= k < rest.len() && local_paths(rest)[k] == key;
            assert(local_paths(local)[k] == key);
        }
        if local_paths(local).contains(key) && local.last().rel_path != key {
            let k = choose|k: int| 0 <= k < local.len() && local_paths(local)[k] == key;
            assert(local_paths(rest)[k] == key);
        }
    }
}

pub(crate) proof fn loose_doc_is_loose(
    docs: Seq<RemoteView>,
    i: int,
    state: Seq<(Seq<char>, StateView)>,
    key: Seq<char>,
)
    requires
        0 <= i,
    ensures
        loose_doc(docs, i, state, key) matches Some(doc) ==> docs.contains(doc) && !is_mapped(
            state,
            doc.uuid,
        ) && doc.local_path() == key,
    decreases docs.len() - i,
{
    if i < docs.len() {
        loose_doc_is_loose(docs, i + 1, state, key);
    }
}

proof fn value_is_mapped(state: Seq<(Seq<char>, StateView)>, key: Seq<char>)
    ensures
        value_of(state, key) matches Some(st) ==> is_mapped(state, st.uuid),
    decreases state.len(),
{
    if state.len() > 0 {
        let rest = state.drop_last();
        value_is_mapped(rest, key);
        if state.last().0 == key {
            assert(state[state.len() - 1].1.uuid == state.last().1.uuid);
        } else if value_of(rest, key) is Some {
            let uuid = value_of(rest, key)->Some_0.uuid;
            let m = choose|m: int| 0 <= m < rest.len() && (#[trigger] rest[m]).1.uuid == uuid;
            assert(state[m].1.uuid == uuid);
        }
    }
}

/// Two rows never have the same document.
proof fn documents_have_one_row(
    local: Seq<LocalView>,
    docs: Seq<RemoteView>,
    state: Seq<(Seq<char>, StateView)>,
    i: int,
    j: int,
)
    requires
        maps_documents_once(state),
        distinct_documents(docs),
        0 <= i < plan_rows(local, docs, state).len(),
        0 <= j < plan_rows(local, docs, state).len(),
        plan_rows(local, docs, state)[i].doc is Some,
        plan_rows(local, docs, state)[j].doc is Some,
        plan_rows(local, docs, state)[i].doc->Some_0.uuid == plan_rows(
            local,
            docs,
            state,
        )[j].doc->Some_0.uuid,
    ensures
        i == j,
{
    let rows = plan_rows(local, docs, state);
    let a = rows[i].doc->Some_0;
    let b = rows[j].doc->Some_0;
    row_documents(local, docs, state, i);
    row_documents(local, docs, state, j);
    value_is_mapped(state, rows[i].key);
    value_is_mapped(state, rows[j].key);
    plan_rows_have_distinct_keys(local, docs, state);
    if rows[i].st is None && rows[j].st is None {
        assert(doc_with(docs, a.uuid) == Some(a));
        assert(a == b);
    }
    assert(rows[i].key == rows[j].key);
    if i < j {
        assert(rows[i].key != rows[j].key);
    } else if j < i {
        assert(rows[j].key != rows[i].key);
    }
}

/// What is known of the document of a row.
proof fn row_documents(
    local: Seq<LocalView>,
    docs: Seq<RemoteView>,
    state: Seq<(Seq<char>, StateView)>,
    i: int,
)
    requires
        distinct_documents(docs),
        0 <= i < plan_rows(local, docs, state).len(),
    ensures
        ({
            let row = plan_rows(local, docs, state)[i];
            &&& row == row_of(local, docs, state, row.key)
            &&& row.doc matches Some(doc) ==> {
                &&& doc_with(docs, doc.uuid) == Some(doc)
                &&& row_uuid(row) == doc.uuid
                &&& row.st is None ==> !is_mapped(state, doc.uuid) && doc.local_path() == row.key
            }
        }),
{
    let row = plan_rows(local, docs, state)[i];
    assert(row == row_of(local, docs, state, plan_keys(local, docs, state)[i]));
    match row.st {
        Some(st) => {
            doc_with_has_uuid(docs, st.uuid);
        },
        None => {
            loose_doc_is_loose(docs, 0, state, row.key);
            if row.doc is Some {
                let doc = row.doc->Some_0;
                let k = choose|k: int| 0 <= k < docs.len() && docs[k] == doc;
                doc_with_at(docs, k);
            }
        },
    }
}

/// The row of a path that is mapped, has a file or has an unmapped document.
pub(crate) proof fn row_for(
    local: Seq<LocalView>,
    docs: Seq<RemoteView>,
    state: Seq<(Seq<char>, StateView)>,
    key: Seq<char>,
) -> (i: int)
    requires
        value_of(state, key) is Some || local_at(local, key) is Some || loose_paths(
            docs,
            docs.len(),
            state,
        ).contains(key),
    ensures
        0 <= i < plan_rows(local, docs, state).len(),
        plan_rows(local, docs, state)[i] == row_of(local, docs, state, key),
{
    let loose = loose_paths(docs, docs.len(), state);
    let all = keys(state) + local_paths(local) + loose;
    let ks = plan_keys(local, docs, state);
    value_of_is_keyed(state, key);
    local_at_of(local, key);
    sort_dedup_is_ascending(all);
    if keys(state).contains(key) {
        let k = choose|k: int| 0 <= k < state.len() && keys(state)[k] == key;
        assert(all[k] == key);
    } else if local_paths(local).contains(key) {
        let k = choose|k: int| 0 <= k < local.len() && local_paths(local)[k] == key;
        assert(all[state.len() + k] == key);
    } else {
        let k = choose|k: int| 0 <= k < loose.len() && loose[k] == key;
        assert(all[state.len() + local.len() + k] == key);
    }
    assert(all.contains(key));
    assert(ks.contains(key));
    choose|i: int| 0 <= i < ks.len() && ks[i] == key
}

/// Without a note on a taken path, an unmapped document is the one of its path.
proof fn loose_documents_have_their_path(
    docs: Seq<RemoteView>,
    n: nat,
    state: Seq<(Seq<char>, StateView)>,
    j: int,
)
    requires
        0 <= j < n <= docs.len(),
        !is_mapped(state, docs[j].uuid),
        tracked_notes(docs, n, state).len() == 0,
    ensures
        value_of(state, docs[j].local_path()) is None,
        loose_paths(docs, n, state).contains(docs[j].local_path()),
        loose_doc(docs, 0, state, docs[j].local_path()) == Some(docs[j]),
    decreases n,
{
    let path = docs[j].local_path();
    let now = loose_paths(docs, n, state);
    let before = loose_paths(docs, (n - 1) as nat, state);
    if j < n - 1 {
        loose_documents_have_their_path(docs, (n - 1) as nat, state, j);
        let k = choose|k: int| 0 <= k < before.len() && before[k] == path;
        assert(now[k] == path);
    } else {
        assert(now[before.len() as int] == path);
        assert forall|m: int| 0 <= m < j implies is_mapped(state, (#[trigger] docs[m]).uuid)
            || docs[m].local_path() != path by {}
        first_loose_document(docs, 0, state, j);
    }
}

pub(crate) proof fn first_loose_document(
    docs: Seq<RemoteView>,
    i: int,
    state: Seq<(Seq<char>, StateView)>,
    j: int,
)
    requires
        0 <= i <= j < docs.len(),
        !is_mapped(state, docs[j].uuid),
        forall|m: int|
            i <= m < j ==> is_mapped(state, (#[trigger] docs[m]).uuid) || docs[m].local_path()
                != docs[j].local_path(),
    ensures
        loose_doc(docs, i, state, docs[j].local_path()) == Some(docs[j]),
    decreases j - i,
{
    if i < j {
        first_loose_document(docs, i + 1, state, j);
    }
}

/// Whether a sync starts from sound records: the mappings are in order, each document is mapped
/// once at most, and the snapshot lists each document once.
pub open spec fn is_sound(remote: SnapshotView, state: Seq<(Seq<char>, StateView)>) -> bool {
    &&& ascending(keys(state))
    &&& maps_documents_once(state)
    &&& distinct_documents(remote.docs)
    &&& forall|i: int| 0 <= i < remote.skips.len() ==> (#[trigger] remote.skips[i]) is Skip
}

/// Whether a sync is finished: it started from sound records, its plan left nothing undecided, and
/// the plan was carried out.
pub open spec fn is_finished(
    options: SyncOptions,
    local: Seq<LocalView>,
    remote: SnapshotView,
    state: Seq<(Seq<char>, StateView)>,
    reports: Seq<DoneView>,
    new_local: Seq<LocalView>,
    new_docs: Seq<RemoteView>,
) -> bool {
    &&& is_sound(remote, state)
    &&& decides_all(planned(options, local, remote, state), remote.skips.len())
    &&& carried_out(
        planned(options, local, remote, state),
        reports,
        state,
        local,
        remote.docs,
        new_local,
        new_docs,
    )
}

/// The state that a sync leaves.
pub open spec fn final_state(
    options: SyncOptions,
    local: Seq<LocalView>,
    remote: SnapshotView,
    state: Seq<(Seq<char>, StateView)>,
    reports: Seq<DoneView>,
) -> Seq<(Seq<char>, StateView)> {
    let p = planned(options, local, remote, state);
    state_at(p, state, reports, p.len())
}

/// The document of a row that leads to no more than a download is not touched.
proof fn pulled_documents_stay(
    options: SyncOptions,
    local: Seq<LocalView>,
    remote: SnapshotView,
    state: Seq<(Seq<char>, StateView)>,
    reports: Seq<DoneView>,
    new_local: Seq<LocalView>,
    new_docs: Seq<RemoteView>,
    i: int,
)
    requires
        is_sound(remote, state),
        carried_out(
            planned(options, local, remote, state),
            reports,
            state,
            local,
            remote.docs,
            new_local,
            new_docs,
        ),
        0 <= i < plan_rows(local, remote.docs, state).len(),
        plan_rows(local, remote.docs, state)[i].doc is Some,
        forall|x: ActionView|
            row_acts(options, remote, plan_rows(local, remote.docs, state), i, x) ==> x is Download,
    ensures
        ({
            let doc = plan_rows(local, remote.docs, state)[i].doc->Some_0;
            doc_with(new_docs, doc.uuid) == Some(doc)
        }),
{
    let p = planned(options, local, remote, state);
    let rows = plan_rows(local, remote.docs, state);
    let doc = rows[i].doc->Some_0;
    row_documents(local, remote.docs, state, i);
    assert(file_follows(p, reports, local, new_local, rows[i].key));
    assert(doc_follows(p, reports, remote.docs, new_docs, doc.uuid));
    assert forall|q: int| 0 <= q < p.len() implies !touches_doc(
        #[trigger] p[q],
        reports[q],
        doc.uuid,
    ) by {
        let x = p[q];
        if touches_doc(x, reports[q], doc.uuid) {
            if !(x is Upload) {
                let (j, a) = position_origin(options, local, remote, state, q);
                rows_act_once(options, remote, rows, j, x);
                actions_follow_decisions(options, remote, rows, j);
                decisions_have_grounds(options, rows[j]);
                row_documents(local, remote.docs, state, j);
                documents_have_one_row(local, remote.docs, state, i, j);
            }
        }
    }
}

/// The final mapping of the path of a row that leads to an action.
proof fn acting_rows_are_recorded(
    options: SyncOptions,
    local: Seq<LocalView>,
    remote: SnapshotView,
    state: Seq<(Seq<char>, StateView)>,
    reports: Seq<DoneView>,
    i: int,
    x: ActionView,
) -> (q: int)
    requires
        is_sound(remote, state),
        all_reported(planned(options, local, remote, state), reports),
        0 <= i < plan_rows(local, remote.docs, state).len(),
        row_acts(options, remote, plan_rows(local, remote.docs, state), i, x),
    ensures
        ({
            let p = planned(options, local, remote, state);
            &&& 0 <= q < p.len()
            &&& p[q] == x
            &&& subject(x) == Some(plan_rows(local, remote.docs, state)[i].key)
            &&& reports_on(reports[q], x)
            &&& value_of(
                state_at(p, state, reports, p.len()),
                plan_rows(local, remote.docs, state)[i].key,
            ) == recorded(x, reports[q])
        }),
{
    let p = planned(options, local, remote, state);
    let rows = plan_rows(local, remote.docs, state);
    let q = row_position(options, local, remote, state, i, x);
    rows_act_once(options, remote, rows, i, x);
    paths_are_handled_once(options, local, remote, state);
    handled_paths_are_recorded(p, state, reports, q, rows[i].key);
    assert(reports_on(reports[q], p[q]));
    q
}

/// A row without a note leads to an action, or nothing is decided for it.
proof fn quiet_rows_act_or_rest(
    options: SyncOptions,
    remote: SnapshotView,
    rows: Seq<RowView>,
    i: int,
) -> (x: Option<ActionView>)
    requires
        row_buckets(options, remote, rows, i).notes.len() == 0,
    ensures
        match x {
            Some(x) => row_acts(options, remote, rows, i, x),
            None => row_decision(options, rows[i]) == Decision::Nothing,
        },
        x is Some && rows[i].doc is Some ==> {
            ||| x->Some_0 is Download
            ||| x->Some_0 is UpdateRemote
            ||| x->Some_0 is DeleteRemote
        },
        x is Some && rows[i].entry is Some ==> !(x->Some_0 is Forget),
        x is Some && (x->Some_0 is DeleteRemote || x->Some_0 is DeleteLocal || x->Some_0 is Forget)
            ==> rows[i].st is Some,
        x is Some && x->Some_0 is DeleteRemote ==> rows[i].entry is None,
{
    let one = row_buckets(options, remote, rows, i);
    let row = rows[i];
    decisions_have_grounds(options, row);
    match (row.st, row.entry, row.doc) {
        (Some(_), Some(_), Some(_)) => {},
        (Some(_), Some(_), None) => {},
        (Some(_), None, Some(_)) => {},
        (Some(_), None, None) => {},
        _ => {},
    }
    match row_decision(options, row) {
        Decision::Nothing => None,
        Decision::Upload | Decision::Update | Decision::Download => {
            assert(one.transfers =~= seq![one.transfers[0]]);
            Some(one.transfers[0])
        },
        Decision::DeleteRemote | Decision::DeleteLocal => {
            assert(one.deletes =~= seq![one.deletes[0]]);
            Some(one.deletes[0])
        },
        Decision::Forget => {
            assert(one.forgets =~= seq![one.forgets[0]]);
            Some(one.forgets[0])
        },
        _ => {
            assert(one.notes.len() == 1);
            None
        },
    }
}

/// What a row without a note leads to, in a finished sync: the action that handles its path, or
/// nothing at all.
proof fn row_outcome(
    options: SyncOptions,
    local: Seq<LocalView>,
    remote: SnapshotView,
    state: Seq<(Seq<char>, StateView)>,
    reports: Seq<DoneView>,
    new_local: Seq<LocalView>,
    new_docs: Seq<RemoteView>,
    i: int,
) -> (x: Option<(ActionView, int)>)
    requires
        is_finished(options, local, remote, state, reports, new_local, new_docs),
        0 <= i < plan_rows(local, remote.docs, state).len(),
    ensures
        ({
            let p = planned(options, local, remote, state);
            let rows = plan_rows(local, remote.docs, state);
            let after = final_state(options, local, remote, state, reports);
            let row = rows[i];
            match x {
                Some((action, q)) => {
                    &&& row_acts(options, remote, rows, i, action)
                    &&& 0 <= q < p.len() && p[q] == action
                    &&& reports_on(reports[q], action)
                    &&& subject(action) == Some(row.key)
                    &&& value_of(after, row.key) == recorded(action, reports[q])
                    &&& row.doc is Some ==> action is Download || action is UpdateRemote
                        || action is DeleteRemote
                    &&& row.doc is Some && !(action is DeleteRemote) ==> recorded(
                        action,
                        reports[q],
                    ) is Some && recorded(action, reports[q])->Some_0.uuid == row.doc->Some_0.uuid
                    &&& row.doc is Some && action is DeleteRemote ==> touches_doc(
                        action,
                        reports[q],
                        row.doc->Some_0.uuid,
                    )
                    &&& recorded(action, reports[q]) is None ==> row.st is Some && (row.entry is Some
                        ==> action is DeleteLocal)
                },
                None => {
                    &&& row_decision(options, row) == Decision::Nothing
                    &&& value_of(after, row.key) == value_of(state, row.key)
                    &&& forall|q: int| 0 <= q < p.len() ==> subject(#[trigger] p[q]) != Some(row.key)
                    &&& forall|y: ActionView| !(#[trigger] row_acts(options, remote, rows, i, y))
                },
            }
        }),
{
    let p = planned(options, local, remote, state);
    let rows = plan_rows(local, remote.docs, state);
    let row = rows[i];
    decided_plans_have_no_notes(options, local, remote, state);
    assert(row_buckets(options, remote, rows, i).notes.len() == 0);
    decisions_have_grounds(options, row);
    actions_follow_decisions(options, remote, rows, i);
    row_documents(local, remote.docs, state, i);
    let x = quiet_rows_act_or_rest(options, remote, rows, i);
    match x {
        Some(action) => {
            let q = acting_rows_are_recorded(options, local, remote, state, reports, i, action);
            rows_act_once(options, remote, rows, i, action);
            Some((action, q))
        },
        None => {
            assert forall|y: ActionView| !(#[trigger] row_acts(options, remote, rows, i, y)) by {
                assert(seq![y].len() == 1);
            }
            plan_rows_have_distinct_keys(local, remote.docs, state);
            assert forall|q: int| 0 <= q < p.len() implies subject(#[trigger] p[q]) != Some(
                row.key,
            ) by {
                if subject(p[q]) == Some(row.key) {
                    let (j, a) = position_origin(options, local, remote, state, q);
                    rows_act_once(options, remote, rows, j, p[q]);
                    if i < j {
                        assert(rows[i].key != rows[j].key);
                    } else if j < i {
                        assert(rows[j].key != rows[i].key);
                    }
                }
            }
            untouched_paths_keep_their_mapping(p, state, reports, p.len(), 0, row.key);
            None
        },
    }
}

/// How a document came to be mapped in the final state: by the transfer that handled the path, or
/// before.
proof fn final_mapping(
    options: SyncOptions,
    local: Seq<LocalView>,
    remote: SnapshotView,
    state: Seq<(Seq<char>, StateView)>,
    reports: Seq<DoneView>,
    new_local: Seq<LocalView>,
    new_docs: Seq<RemoteView>,
    uuid: Seq<char>,
) -> (r: (Seq<char>, Option<int>))
    requires
        is_finished(options, local, remote, state, reports, new_local, new_docs),
        is_mapped(final_state(options, local, remote, state, reports), uuid),
    ensures
        ({
            let p = planned(options, local, remote, state);
            match r.1 {
                Some(q) => {
                    &&& 0 <= q < p.len()
                    &&& subject(p[q]) == Some(r.0)
                    &&& recorded(p[q], reports[q]) is Some
                    &&& recorded(p[q], reports[q])->Some_0.uuid == uuid
                },
                None => value_of(state, r.0) is Some && value_of(state, r.0)->Some_0.uuid == uuid,
            }
        }),
{
    let p = planned(options, local, remote, state);
    let after = final_state(options, local, remote, state, reports);
    let m = choose|m: int| 0 <= m < after.len() && (#[trigger] after[m]).1.uuid == uuid;
    let key = after[m].0;
    untouched_paths_keep_their_mapping(p, state, reports, p.len(), p.len(), key);
    value_of_at(after, m);
    paths_are_handled_once(options, local, remote, state);
    if exists|q: int| 0 <= q < p.len() && subject(#[trigger] p[q]) == Some(key) {
        let q = choose|q: int| 0 <= q < p.len() && subject(#[trigger] p[q]) == Some(key);
        handled_paths_are_recorded(p, state, reports, q, key);
        (key, Some(q))
    } else {
        untouched_paths_keep_their_mapping(p, state, reports, p.len(), 0, key);
        (key, None)
    }
}

/// A document that is unmapped in the end was there and unmapped before, it is the one of its path,
/// and nothing was done about that path.
proof fn final_loose_documents(
    options: SyncOptions,
    local: Seq<LocalView>,
    remote: SnapshotView,
    state: Seq<(Seq<char>, StateView)>,
    reports: Seq<DoneView>,
    new_local: Seq<LocalView>,
    new_docs: Seq<RemoteView>,
    j: int,
)
    requires
        is_finished(options, local, remote, state, reports, new_local, new_docs),
        0 <= j < new_docs.len(),
        doc_with(new_docs, new_docs[j].uuid) == Some(new_docs[j]),
        !is_mapped(final_state(options, local, remote, state, reports), new_docs[j].uuid),
    ensures
        ({
            let p = planned(options, local, remote, state);
            let doc = new_docs[j];
            let path = doc.local_path();
            &&& value_of(state, path) is None
            &&& value_of(final_state(options, local, remote, state, reports), path) is None
            &&& loose_doc(remote.docs, 0, state, path) == Some(doc)
            &&& loose_paths(remote.docs, remote.docs.len(), state).contains(path)
            &&& forall|q: int| 0 <= q < p.len() ==> subject(#[trigger] p[q]) != Some(path)
        }),
{
    let p = planned(options, local, remote, state);
    let rows = plan_rows(local, remote.docs, state);
    let docs = remote.docs;
    let after = final_state(options, local, remote, state, reports);
    let doc = new_docs[j];
    let uuid = doc.uuid;
    let path = doc.local_path();
    assert(doc_follows(p, reports, docs, new_docs, uuid));
    paths_are_handled_once(options, local, remote, state);
    assert forall|q: int| 0 <= q < p.len() implies !touches_doc(
        #[trigger] p[q],
        reports[q],
        uuid,
    ) by {
        if touches_doc(p[q], reports[q], uuid) {
            assert(reports_on(reports[q], p[q]));
            let key = subject(p[q])->Some_0;
            handled_paths_are_recorded(p, state, reports, q, key);
            value_is_mapped(after, key);
        }
    }
    doc_with_has_uuid(docs, uuid);
    let k = choose|k: int| 0 <= k < docs.len() && docs[k] == doc;
    if is_mapped(state, uuid) {
        let m = choose|m: int| 0 <= m < state.len() && (#[trigger] state[m]).1.uuid == uuid;
        value_of_at(state, m);
        let i = row_for(local, docs, state, state[m].0);
        assert(rows[i].doc == Some(doc));
        let x = row_outcome(options, local, remote, state, reports, new_local, new_docs, i);
        if x is Some {
            let (action, q) = x->Some_0;
            assert(!touches_doc(p[q], reports[q], uuid));
        }
        value_is_mapped(after, rows[i].key);
        assert(false);
    }
    decided_plans_have_no_notes(options, local, remote, state);
    loose_documents_have_their_path(docs, docs.len(), state, k);
    let i = row_for(local, docs, state, path);
    assert(rows[i].doc == Some(doc) && rows[i].key == path);
    let x = row_outcome(options, local, remote, state, reports, new_local, new_docs, i);
    if x is Some {
        let (action, q) = x->Some_0;
        assert(!touches_doc(p[q], reports[q], uuid));
        value_is_mapped(after, path);
        assert(false);
    }
}

/// The unmapped document of a row that leads to no action is there in the end, and unmapped.
proof fn idle_documents_stay_loose(
    options: SyncOptions,
    local: Seq<LocalView>,
    remote: SnapshotView,
    state: Seq<(Seq<char>, StateView)>,
    reports: Seq<DoneView>,
    new_local: Seq<LocalView>,
    new_docs: Seq<RemoteView>,
    i: int,
) -> (j: int)
    requires
        is_finished(options, local, remote, state, reports, new_local, new_docs),
        0 <= i < plan_rows(local, remote.docs, state).len(),
        plan_rows(local, remote.docs, state)[i].st is None,
        plan_rows(local, remote.docs, state)[i].doc is Some,
        forall|y: ActionView|
            !(#[trigger] row_acts(options, remote, plan_rows(local, remote.docs, state), i, y)),
    ensures
        0 <= j < new_docs.len(),
        Some(new_docs[j]) == plan_rows(local, remote.docs, state)[i].doc,
        !is_mapped(final_state(options, local, remote, state, reports), new_docs[j].uuid),
{
    let p = planned(options, local, remote, state);
    let rows = plan_rows(local, remote.docs, state);
    let after = final_state(options, local, remote, state, reports);
    let doc = rows[i].doc->Some_0;
    pulled_documents_stay(options, local, remote, state, reports, new_local, new_docs, i);
    row_documents(local, remote.docs, state, i);
    doc_with_has_uuid(new_docs, doc.uuid);
    if is_mapped(after, doc.uuid) {
        let (key, how) = final_mapping(
            options,
            local,
            remote,
            state,
            reports,
            new_local,
            new_docs,
            doc.uuid,
        );
        match how {
            Some(q) => {
                if !(p[q] is Upload) {
                    let (k, a) = position_origin(options, local, remote, state, q);
                    rows_act_once(options, remote, rows, k, p[q]);
                    actions_follow_decisions(options, remote, rows, k);
                    decisions_have_grounds(options, rows[k]);
                    row_documents(local, remote.docs, state, k);
                    documents_have_one_row(local, remote.docs, state, i, k);
                }
            },
            None => {
                value_is_mapped(state, key);
            },
        }
        assert(false);
    }
    choose|j: int| 0 <= j < new_docs.len() && new_docs[j] == doc
}

proof fn loose_doc_is_found(
    docs: Seq<RemoteView>,
    i: int,
    state: Seq<(Seq<char>, StateView)>,
    j: int,
)
    requires
        0 <= i <= j < docs.len(),
        !is_mapped(state, docs[j].uuid),
    ensures
        loose_doc(docs, i, state, docs[j].local_path()) is Some,
    decreases j - i,
{
    if i < j {
        loose_doc_is_found(docs, i + 1, state, j);
    }
}

/// A path that was handled has its file and its document, both as recorded, or is not mapped any
/// more and has no file.
proof fn handled_paths_are_current(
    options: SyncOptions,
    local: Seq<LocalView>,
    remote: SnapshotView,
    state: Seq<(Seq<char>, StateView)>,
    reports: Seq<DoneView>,
    new_local: Seq<LocalView>,
    new_docs: Seq<RemoteView>,
    q: int,
    key: Seq<char>,
)
    requires
        is_finished(options, local, remote, state, reports, new_local, new_docs),
        0 <= q < planned(options, local, remote, state).len(),
        subject(planned(options, local, remote, state)[q]) == Some(key),
    ensures
        ({
            let after = final_state(options, local, remote, state, reports);
            &&& value_of(after, key) == recorded(
                planned(options, local, remote, state)[q],
                reports[q],
            )
            &&& value_of(after, key) matches Some(st) ==> (local_at(new_local, key) matches Some(
                entry,
            ) && !local_changed(st, entry)) && (doc_with(new_docs, st.uuid) matches Some(doc)
                && !remote_changed(st, doc))
            &&& value_of(after, key) is None ==> local_at(new_local, key) is None
        }),
{
    let p = planned(options, local, remote, state);
    let rows = plan_rows(local, remote.docs, state);
    let after = final_state(options, local, remote, state, reports);
    assert(file_follows(p, reports, local, new_local, key));
    let (i, a) = position_origin(options, local, remote, state, q);
    let x = p[q];
    rows_act_once(options, remote, rows, i, x);
    paths_are_handled_once(options, local, remote, state);
    handled_paths_are_recorded(p, state, reports, q, key);
    assert(reports_on(reports[q], x));
    if value_of(after, key) is Some {
        let st = value_of(after, key)->Some_0;
        assert(touches_file(x, key));
        assert(doc_follows(p, reports, remote.docs, new_docs, st.uuid));
        if x is Download {
            actions_follow_decisions(options, remote, rows, i);
            decisions_have_grounds(options, rows[i]);
            pulled_documents_stay(options, local, remote, state, reports, new_local, new_docs, i);
        } else {
            assert(touches_doc(x, reports[q], st.uuid));
        }
    } else if x is DeleteLocal {
        assert(touches_file(x, key));
    } else {
        assert forall|r: int| 0 <= r < p.len() implies !touches_file(#[trigger] p[r], key) by {
            if r < q {
                assert(subject(p[r]) is Some ==> subject(p[r]) != subject(p[q]));
            } else if q < r {
                assert(subject(p[q]) != subject(p[r]));
            }
        }
        let outcome = row_outcome(options, local, remote, state, reports, new_local, new_docs, i);
        row_documents(local, remote.docs, state, i);
    }
}

/// What the next plan knows of a path that was handled: nothing is decided for it.
proof fn handled_paths_rest(
    options: SyncOptions,
    local: Seq<LocalView>,
    remote: SnapshotView,
    state: Seq<(Seq<char>, StateView)>,
    reports: Seq<DoneView>,
    new_local: Seq<LocalView>,
    new_docs: Seq<RemoteView>,
    q: int,
    key: Seq<char>,
)
    requires
        is_finished(options, local, remote, state, reports, new_local, new_docs),
        distinct_documents(new_docs),
        0 <= q < planned(options, local, remote, state).len(),
        subject(planned(options, local, remote, state)[q]) == Some(key),
    ensures
        row_decision(
            options,
            row_of(
                new_local,
                new_docs,
                final_state(options, local, remote, state, reports),
                key,
            ),
        ) == Decision::Nothing,
{
    let p = planned(options, local, remote, state);
    let after = final_state(options, local, remote, state, reports);
    handled_paths_are_current(
        options,
        local,
        remote,
        state,
        reports,
        new_local,
        new_docs,
        q,
        key,
    );
    if value_of(after, key) is None {
        loose_doc_is_loose(new_docs, 0, after, key);
        if loose_doc(new_docs, 0, after, key) is Some {
            let doc = loose_doc(new_docs, 0, after, key)->Some_0;
            let j = choose|j: int| 0 <= j < new_docs.len() && new_docs[j] == doc;
            doc_with_at(new_docs, j);
            final_loose_documents(
                options,
                local,
                remote,
                state,
                reports,
                new_local,
                new_docs,
                j,
            );
            assert(subject(p[q]) != Some(key));
        }
    }
}

/// What the next plan knows of a path that was not handled is what was known before.
proof fn idle_paths_rest(
    options: SyncOptions,
    local: Seq<LocalView>,
    remote: SnapshotView,
    state: Seq<(Seq<char>, StateView)>,
    reports: Seq<DoneView>,
    new_local: Seq<LocalView>,
    new_docs: Seq<RemoteView>,
    key: Seq<char>,
)
    requires
        is_finished(options, local, remote, state, reports, new_local, new_docs),
        distinct_documents(new_docs),
        forall|q: int|
            0 <= q < planned(options, local, remote, state).len() ==> subject(
                #[trigger] planned(options, local, remote, state)[q],
            ) != Some(key),
    ensures
        row_decision(
            options,
            row_of(
                new_local,
                new_docs,
                final_state(options, local, remote, state, reports),
                key,
            ),
        ) == Decision::Nothing,
{
    let p = planned(options, local, remote, state);
    let rows = plan_rows(local, remote.docs, state);
    let docs = remote.docs;
    let after = final_state(options, local, remote, state, reports);
    assert(file_follows(p, reports, local, new_local, key));
    assert(local_at(new_local, key) == local_at(local, key));
    untouched_paths_keep_their_mapping(p, state, reports, p.len(), 0, key);
    assert(value_of(after, key) == value_of(state, key));
    let row = row_of(new_local, new_docs, after, key);
    match value_of(state, key) {
        Some(st) => {
            let i = row_for(local, docs, state, key);
            let x = row_outcome(options, local, remote, state, reports, new_local, new_docs, i);
            assert(x is None);
            row_documents(local, docs, state, i);
            if rows[i].doc is Some {
                pulled_documents_stay(
                    options,
                    local,
                    remote,
                    state,
                    reports,
                    new_local,
                    new_docs,
                    i,
                );
            } else {
                assert(doc_follows(p, reports, docs, new_docs, st.uuid));
                value_is_mapped(state, key);
                assert forall|q: int| 0 <= q < p.len() implies !touches_doc(
                    #[trigger] p[q],
                    reports[q],
                    st.uuid,
                ) by {
                    if touches_doc(p[q], reports[q], st.uuid) && !(p[q] is Upload) {
                        let (k, a) = position_origin(options, local, remote, state, q);
                        rows_act_once(options, remote, rows, k, p[q]);
                        actions_follow_decisions(options, remote, rows, k);
                        decisions_have_grounds(options, rows[k]);
                        row_documents(local, docs, state, k);
                    }
                }
            }
            assert(row == rows[i]);
        },
        None => {
            loose_doc_is_loose(new_docs, 0, after, key);
            loose_doc_is_loose(docs, 0, state, key);
            match row.doc {
                Some(doc) => {
                    let j = choose|j: int| 0 <= j < new_docs.len() && new_docs[j] == doc;
                    doc_with_at(new_docs, j);
                    final_loose_documents(
                        options,
                        local,
                        remote,
                        state,
                        reports,
                        new_local,
                        new_docs,
                        j,
                    );
                    let i = row_for(local, docs, state, key);
                    let x = row_outcome(
                        options,
                        local,
                        remote,
                        state,
                        reports,
                        new_local,
                        new_docs,
                        i,
                    );
                    assert(x is None);
                    assert(row == rows[i]);
                },
                None => {
                    if loose_doc(docs, 0, state, key) is Some {
                        let doc = loose_doc(docs, 0, state, key)->Some_0;
                        let k = choose|k: int| 0 <= k < docs.len() && docs[k] == doc;
                        decided_plans_have_no_notes(options, local, remote, state);
                        loose_documents_have_their_path(docs, docs.len(), state, k);
                        let i = row_for(local, docs, state, key);
                        let x = row_outcome(
                            options,
                            local,
                            remote,
                            state,
                            reports,
                            new_local,
                            new_docs,
                            i,
                        );
                        assert(x is None);
                        let j = idle_documents_stay_loose(
                            options,
                            local,
                            remote,
                            state,
                            reports,
                            new_local,
                            new_docs,
                            i,
                        );
                        loose_doc_is_found(new_docs, 0, after, j);
                    } else if row.entry is Some {
                        let i = row_for(local, docs, state, key);
                        let x = row_outcome(
                            options,
                            local,
                            remote,
                            state,
                            reports,
                            new_local,
                            new_docs,
                            i,
                        );
                        assert(x is None);
                        assert(row == rows[i]);
                    }
                },
            }
        },
    }
}

/// The next plan has no notes on taken paths.
proof fn final_paths_are_not_taken(
    options: SyncOptions,
    local: Seq<LocalView>,
    remote: SnapshotView,
    state: Seq<(Seq<char>, StateView)>,
    reports: Seq<DoneView>,
    new_local: Seq<LocalView>,
    new_docs: Seq<RemoteView>,
    n: nat,
)
    requires
        is_finished(options, local, remote, state, reports, new_local, new_docs),
        distinct_documents(new_docs),
        n <= new_docs.len(),
    ensures
        tracked_notes(
            new_docs,
            n,
            final_state(options, local, remote, state, reports),
        ).len() == 0,
    decreases n,
{
    if n > 0 {
        let after = final_state(options, local, remote, state, reports);
        let m = (n - 1) as nat;
        final_paths_are_not_taken(options, local, remote, state, reports, new_local, new_docs, m);
        let doc = new_docs[n - 1];
        let path = doc.local_path();
        if !is_mapped(after, doc.uuid) {
            doc_with_at(new_docs, n - 1);
            final_loose_documents(
                options,
                local,
                remote,
                state,
                reports,
                new_local,
                new_docs,
                n - 1,
            );
            if has_loose(new_docs, m, after, path) {
                let j = choose|j: int|
                    0 <= j < m && !is_mapped(after, (#[trigger] new_docs[j]).uuid)
                        && new_docs[j].local_path() == path;
                doc_with_at(new_docs, j);
                final_loose_documents(
                    options,
                    local,
                    remote,
                    state,
                    reports,
                    new_local,
                    new_docs,
                    j,
                );
                assert(new_docs[j].uuid != new_docs[n - 1].uuid);
            }
        }
    }
}

/// The same sync again does nothing, in whatever direction: once every action of a plan that leaves
/// nothing undecided has been carried out and reported, the same options find nothing more to do.
/// What a one-way sync leaves alone, it leaves alone again.
pub proof fn repeated_syncs_do_nothing(
    options: SyncOptions,
    local: Seq<LocalView>,
    remote: SnapshotView,
    state: Seq<(Seq<char>, StateView)>,
    reports: Seq<DoneView>,
    new_local: Seq<LocalView>,
    new_remote: SnapshotView,
)
    requires
        is_finished(options, local, remote, state, reports, new_local, new_remote.docs),
        distinct_documents(new_remote.docs),
    ensures
        planned(
            options,
            new_local,
            new_remote,
            final_state(options, local, remote, state, reports),
        ) == new_remote.skips,
{
    let p = planned(options, local, remote, state);
    let after = final_state(options, local, remote, state, reports);
    let docs = new_remote.docs;
    let rows = plan_rows(new_local, docs, after);
    let ks = plan_keys(new_local, docs, after);
    let notes = new_remote.skips + tracked_notes(docs, docs.len(), after);
    final_paths_are_not_taken(
        options,
        local,
        remote,
        state,
        reports,
        new_local,
        docs,
        docs.len(),
    );
    assert forall|i: int| 0 <= i < rows.len() implies row_decision(options, #[trigger] rows[i])
        == Decision::Nothing by {
        let key = ks[i];
        assert(rows[i] == row_of(new_local, docs, after, key));
        if exists|q: int| 0 <= q < p.len() && subject(#[trigger] p[q]) == Some(key) {
            let q = choose|q: int| 0 <= q < p.len() && subject(#[trigger] p[q]) == Some(key);
            handled_paths_rest(options, local, remote, state, reports, new_local, docs, q, key);
        } else {
            idle_paths_rest(options, local, remote, state, reports, new_local, docs, key);
        }
    }
    nothing_decided_nothing_filled(options, new_remote, rows, rows.len(), notes);
    let b = plan_buckets(options, new_local, new_remote, after);
    let needed = needed_dirs(b.transfers, b.transfers.len(), new_remote.folders);
    assert(needed.len() == 0);
    assert(sort_dedup(needed).len() == 0);
    assert(planned(options, new_local, new_remote, after) =~= new_remote.skips);
}

/// In a two-way sync, nothing is decided only for a path with both sides as recorded.
proof fn resting_rows_are_settled(options: SyncOptions, row: RowView)
    requires
        options.mode == Mode::TwoWay,
        row_decision(options, row) == Decision::Nothing,
        row.st is Some || row.entry is Some || row.doc is Some,
    ensures
        row.st is Some && row.entry is Some && row.doc is Some,
        !local_changed(row.st->Some_0, row.entry->Some_0),
        !remote_changed(row.st->Some_0, row.doc->Some_0),
{
    match (row.st, row.entry, row.doc) {
        (Some(_), Some(_), Some(_)) => {},
        (Some(_), Some(_), None) => {},
        (Some(_), None, Some(_)) => {},
        _ => {},
    }
}

/// The path of a mapping that a finished two-way sync leaves has its file and its document, both as
/// recorded; a path with a file has a mapping.
proof fn final_paths_are_current(
    options: SyncOptions,
    local: Seq<LocalView>,
    remote: SnapshotView,
    state: Seq<(Seq<char>, StateView)>,
    reports: Seq<DoneView>,
    new_local: Seq<LocalView>,
    new_docs: Seq<RemoteView>,
    key: Seq<char>,
)
    requires
        options.mode == Mode::TwoWay,
        is_finished(options, local, remote, state, reports, new_local, new_docs),
    ensures
        ({
            let after = final_state(options, local, remote, state, reports);
            &&& value_of(after, key) matches Some(st) ==> (local_at(new_local, key) matches Some(
                entry,
            ) && !local_changed(st, entry)) && (doc_with(new_docs, st.uuid) matches Some(doc)
                && !remote_changed(st, doc))
            &&& local_at(new_local, key) is Some ==> value_of(after, key) is Some
        }),
{
    let p = planned(options, local, remote, state);
    let rows = plan_rows(local, remote.docs, state);
    let after = final_state(options, local, remote, state, reports);
    if exists|q: int| 0 <= q < p.len() && subject(#[trigger] p[q]) == Some(key) {
        let q = choose|q: int| 0 <= q < p.len() && subject(#[trigger] p[q]) == Some(key);
        handled_paths_are_current(
            options,
            local,
            remote,
            state,
            reports,
            new_local,
            new_docs,
            q,
            key,
        );
    } else {
        assert(file_follows(p, reports, local, new_local, key));
        untouched_paths_keep_their_mapping(p, state, reports, p.len(), 0, key);
        if value_of(after, key) is Some || local_at(new_local, key) is Some {
            let i = row_for(local, remote.docs, state, key);
            let x = row_outcome(options, local, remote, state, reports, new_local, new_docs, i);
            resting_rows_are_settled(options, rows[i]);
            row_documents(local, remote.docs, state, i);
            pulled_documents_stay(options, local, remote, state, reports, new_local, new_docs, i);
        }
    }
}

/// A finished two-way sync leaves no document unmapped.
proof fn final_documents_are_mapped(
    options: SyncOptions,
    local: Seq<LocalView>,
    remote: SnapshotView,
    state: Seq<(Seq<char>, StateView)>,
    reports: Seq<DoneView>,
    new_local: Seq<LocalView>,
    new_docs: Seq<RemoteView>,
    uuid: Seq<char>,
)
    requires
        options.mode == Mode::TwoWay,
        is_finished(options, local, remote, state, reports, new_local, new_docs),
        doc_with(new_docs, uuid) is Some,
    ensures
        is_mapped(final_state(options, local, remote, state, reports), uuid),
{
    if !is_mapped(final_state(options, local, remote, state, reports), uuid) {
        doc_with_has_uuid(new_docs, uuid);
        let doc = doc_with(new_docs, uuid)->Some_0;
        let j = choose|j: int| 0 <= j < new_docs.len() && new_docs[j] == doc;
        final_loose_documents(
            options,
            local,
            remote,
            state,
            reports,
            new_local,
            new_docs,
            j,
        );
        let i = row_for(local, remote.docs, state, doc.local_path());
        let x = row_outcome(options, local, remote, state, reports, new_local, new_docs, i);
        resting_rows_are_settled(options, plan_rows(local, remote.docs, state)[i]);
    }
}

/// A sync comes to rest: once every action of a two-way plan that leaves nothing undecided has been
/// carried out and reported, both sides are as recorded, so a further sync finds nothing to
/// do, whatever its options.
pub proof fn finished_syncs_are_settled(
    options: SyncOptions,
    local: Seq<LocalView>,
    remote: SnapshotView,
    state: Seq<(Seq<char>, StateView)>,
    reports: Seq<DoneView>,
    new_local: Seq<LocalView>,
    new_remote: SnapshotView,
    later: SyncOptions,
)
    requires
        options.mode == Mode::TwoWay,
        is_finished(options, local, remote, state, reports, new_local, new_remote.docs),
    ensures
        ({
            let after = final_state(options, local, remote, state, reports);
            &&& is_settled(new_local, new_remote.docs, after)
            &&& planned(later, new_local, new_remote, after) == new_remote.skips
        }),
{
    let p = planned(options, local, remote, state);
    let after = state_at(p, state, reports, p.len());
    let docs = new_remote.docs;
    assert forall|key: Seq<char>|
        (#[trigger] value_of(after, key)) matches Some(st) ==> (local_at(
            new_local,
            key,
        ) matches Some(entry) && !local_changed(st, entry)) && (doc_with(
            docs,
            st.uuid,
        ) matches Some(doc) && !remote_changed(st, doc)) by {
        final_paths_are_current(options, local, remote, state, reports, new_local, docs, key);
    }
    assert forall|i: int| 0 <= i < new_local.len() implies value_of(
        after,
        (#[trigger] new_local[i]).rel_path,
    ) is Some by {
        assert(local_paths(new_local)[i] == new_local[i].rel_path);
        local_at_of(new_local, new_local[i].rel_path);
        final_paths_are_current(
            options,
            local,
            remote,
            state,
            reports,
            new_local,
            docs,
            new_local[i].rel_path,
        );
    }
    assert forall|i: int| 0 <= i < docs.len() implies is_mapped(after, (#[trigger] docs[i]).uuid) by {
        doc_with_at(docs, i);
        final_documents_are_mapped(
            options,
            local,
            remote,
            state,
            reports,
            new_local,
            docs,
            docs[i].uuid,
        );
    }
    settled_sides_need_no_actions(later, new_local, new_remote, after);
}

} // verus!
