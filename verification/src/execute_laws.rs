//! What applying a plan asks for, records and counts, action by action.
use vstd::prelude::*;
use crate::error::ErrorView;
use crate::execute::{
    folders_after, is_bundle_push, outcome_of, progress_text, saves_state, state_after, work_of, DoneView,
    WorkView,
};
use crate::number::decimal;
use crate::pathmap::{drop_key_clears_one_key, keys, put_sets_one_key, value_of};
use crate::sync::{
    change_count, description, is_change, ActionView, DocKind, RemoteType, StateView,
};
use crate::text::{ascending, find_last_is_last, find_last, Class};

verus! {

/// An upload goes into the folder that is known under its directory, with the name that was planned,
/// in the way its kind asks for: PDF and EPUB files as they are, texts as an EPUB, bundles restored.
/// Without the folder there is nothing to do but to fail.
pub proof fn uploads_go_where_they_were_planned(
    folders: Seq<(Seq<char>, Seq<char>)>,
    local: Seq<char>,
    kind: DocKind,
    remote_dir: Seq<char>,
    name: Seq<char>,
)
    ensures
        ({
            let work = work_of(ActionView::Upload { local, kind, remote_dir, name }, folders);
            match value_of(folders, remote_dir) {
                None => work == Err::<WorkView, ErrorView>(ErrorView::PathNotFound(remote_dir)),
                Some(uuid) => match work {
                    Ok(WorkView::StorePayload { local: l, parent_uuid, name: n, file_type }) => l
                        == local && parent_uuid == uuid && n == name && (kind == DocKind::Pdf
                        && file_type == "pdf"@ || kind == DocKind::Epub && file_type == "epub"@),
                    Ok(WorkView::StoreText { local: l, parent_uuid, name: n, markdown }) => l
                        == local && parent_uuid == uuid && n == name && (kind == DocKind::Markdown
                        && markdown || kind == DocKind::Text && !markdown),
                    Ok(WorkView::Restore { local: l, parent_uuid, name: n }) => l == local
                        && parent_uuid == uuid && n == name && kind == DocKind::Rmdoc,
                    _ => false,
                },
            }
        }),
{
}

/// An update overwrites the document that was planned with the local file that was planned: a PDF or
/// an EPUB by the file itself, and a text by an EPUB made of it under the name of the file without
/// its extension.
pub proof fn updates_overwrite_the_document_meant(
    folders: Seq<(Seq<char>, Seq<char>)>,
    local: Seq<char>,
    kind: DocKind,
    uuid: Seq<char>,
)
    requires
        kind != DocKind::Rmdoc,
    ensures
        match work_of(ActionView::UpdateRemote { local, kind, uuid }, folders) {
            Ok(WorkView::UpdatePayload { uuid: u, file_type, local: l }) => u == uuid && l == local
                && (kind == DocKind::Pdf && file_type == "pdf"@ || kind == DocKind::Epub
                && file_type == "epub"@),
            Ok(WorkView::UpdateText { uuid: u, title, markdown, local: l }) => u == uuid && l
                == local && (kind == DocKind::Markdown && markdown || kind == DocKind::Text
                && !markdown),
            _ => false,
        },
{
}

/// A download writes the document that was planned to the path that was planned: a notebook as a
/// bundle, anything else as the payload of its type, of the size that is known.
pub proof fn downloads_fetch_the_document_meant(
    folders: Seq<(Seq<char>, Seq<char>)>,
    local: Seq<char>,
    uuid: Seq<char>,
    doc_type: RemoteType,
    size_bytes: Option<u64>,
    last_modified: i64,
)
    ensures
        match work_of(
            ActionView::Download { local, uuid, doc_type, size_bytes, last_modified },
            folders,
        ) {
            Ok(WorkView::FetchBundle { uuid: u, local: l }) => u == uuid && l == local && doc_type
                == RemoteType::Notebook,
            Ok(WorkView::FetchPayload { uuid: u, file_type, local: l, size_bytes: s }) => u == uuid
                && l == local && s == size_bytes && (doc_type == RemoteType::Pdf && file_type
                == "pdf"@ || doc_type == RemoteType::Epub && file_type == "epub"@),
            _ => false,
        },
{
}

/// A deletion deletes what was planned, on the side that was planned, and what only tells or forgets
/// something asks for no work at all.
pub proof fn deletions_delete_what_was_planned(
    folders: Seq<(Seq<char>, Seq<char>)>,
    path: Seq<char>,
    uuid: Seq<char>,
    reason: Seq<char>,
)
    ensures
        work_of(ActionView::DeleteRemote { path, uuid }, folders) == Ok::<WorkView, ErrorView>(
            WorkView::DeleteRemote { uuid },
        ),
        work_of(ActionView::DeleteLocal { path }, folders) == Ok::<WorkView, ErrorView>(
            WorkView::DeleteLocal { path },
        ),
        work_of(ActionView::Forget { path }, folders) == Ok::<WorkView, ErrorView>(
            WorkView::Nothing,
        ),
        work_of(ActionView::Conflict { path, reason }, folders) == Ok::<WorkView, ErrorView>(
            WorkView::Nothing,
        ),
        work_of(ActionView::Skip { path, reason }, folders) == Ok::<WorkView, ErrorView>(
            WorkView::Nothing,
        ),
{
}

/// A folder is created in the one that is known under its directory, which is the root where it has
/// none, and gets the last part of its path as its name.
pub proof fn folders_are_created_in_their_parents(
    folders: Seq<(Seq<char>, Seq<char>)>,
    dir: Seq<char>,
    name: Seq<char>,
)
    requires
        !name.contains('/'),
    ensures
        work_of(ActionView::CreateRemoteFolder { rel_dir: dir + seq!['/'] + name }, folders)
            == match value_of(folders, dir) {
            Some(parent_uuid) => Ok::<WorkView, ErrorView>(
                WorkView::CreateFolder { name, parent_uuid },
            ),
            None => Err(ErrorView::PathNotFound(dir)),
        },
        work_of(ActionView::CreateRemoteFolder { rel_dir: name }, folders) == match value_of(
            folders,
            Seq::empty(),
        ) {
            Some(parent_uuid) => Ok::<WorkView, ErrorView>(
                WorkView::CreateFolder { name, parent_uuid },
            ),
            None => Err(ErrorView::PathNotFound(Seq::empty())),
        },
{
    let slash = Class::Only('/');
    let path = dir + seq!['/'] + name;
    find_last_is_last(path, slash);
    find_last_is_last(name, slash);
    assert(slash.holds(path[dir.len() as int]));
    let at = find_last(path, slash);
    if at > dir.len() {
        assert(path[at] == name[at - dir.len() - 1]);
        assert(name.contains(name[at - dir.len() - 1]));
    }
    assert(path.take(dir.len() as int) =~= dir);
    assert(path.skip(dir.len() as int + 1) =~= name);
    if find_last(name, slash) >= 0 {
        assert(name.contains(name[find_last(name, slash)]));
    }
}

/// A folder that was created is known by the UUID that it got, and every other one as before.
pub proof fn created_folders_become_known(
    folders: Seq<(Seq<char>, Seq<char>)>,
    rel_dir: Seq<char>,
    uuid: Seq<char>,
    other: Seq<char>,
)
    requires
        ascending(keys(folders)),
    ensures
        ({
            let after = folders_after(
                folders,
                ActionView::CreateRemoteFolder { rel_dir },
                DoneView::Created { uuid },
            );
            &&& value_of(after, rel_dir) == Some(uuid)
            &&& other != rel_dir ==> value_of(after, other) == value_of(folders, other)
        }),
{
    put_sets_one_key(folders, rel_dir, uuid);
}

/// What is recorded of a path is what was last done with it: a transfer records the document, its
/// kind and what both sides look like now, and a deletion, or a path that is forgotten, leaves no
/// record. Nothing else that is recorded changes.
pub proof fn records_tell_what_was_done(
    state: Seq<(Seq<char>, StateView)>,
    path: Seq<char>,
    other: Seq<char>,
    kind: DocKind,
    remote_dir: Seq<char>,
    name: Seq<char>,
    uuid: Seq<char>,
    doc_type: RemoteType,
    size_bytes: Option<u64>,
    last_modified: i64,
    local_size: u64,
    local_mtime_ms: i64,
)
    requires
        ascending(keys(state)),
        other != path,
    ensures
        ({
            let record = StateView {
                uuid,
                kind,
                local_size,
                local_mtime_ms,
                remote_last_modified: last_modified,
            };
            let uploaded = state_after(
                state,
                ActionView::Upload { local: path, kind, remote_dir, name },
                DoneView::Stored { uuid, last_modified, local_size, local_mtime_ms },
            );
            let updated = state_after(
                state,
                ActionView::UpdateRemote { local: path, kind, uuid },
                DoneView::Refreshed { last_modified, local_size, local_mtime_ms },
            );
            let fetched = state_after(
                state,
                ActionView::Download { local: path, uuid, doc_type, size_bytes, last_modified },
                DoneView::Fetched { local_size, local_mtime_ms },
            );
            let gone_there = state_after(
                state,
                ActionView::DeleteRemote { path, uuid },
                DoneView::Nothing,
            );
            let gone_here = state_after(
                state,
                ActionView::DeleteLocal { path },
                DoneView::Nothing,
            );
            let forgotten = state_after(state, ActionView::Forget { path }, DoneView::Nothing);
            &&& value_of(uploaded, path) == Some(record)
            &&& value_of(updated, path) == Some(record)
            &&& value_of(fetched, path) == Some(
                StateView {
                    kind: match doc_type {
                        RemoteType::Pdf => DocKind::Pdf,
                        RemoteType::Epub => DocKind::Epub,
                        RemoteType::Notebook => DocKind::Rmdoc,
                    },
                    ..record
                },
            )
            &&& value_of(gone_there, path) is None
            &&& value_of(gone_here, path) is None
            &&& value_of(forgotten, path) is None
            &&& value_of(uploaded, other) == value_of(state, other)
            &&& value_of(updated, other) == value_of(state, other)
            &&& value_of(fetched, other) == value_of(state, other)
            &&& value_of(gone_there, other) == value_of(state, other)
            &&& value_of(gone_here, other) == value_of(state, other)
            &&& value_of(forgotten, other) == value_of(state, other)
        }),
{
    let record = StateView {
        uuid,
        kind,
        local_size,
        local_mtime_ms,
        remote_last_modified: last_modified,
    };
    put_sets_one_key(state, path, record);
    put_sets_one_key(state, path, StateView { kind: DocKind::Pdf, ..record });
    put_sets_one_key(state, path, StateView { kind: DocKind::Epub, ..record });
    put_sets_one_key(state, path, StateView { kind: DocKind::Rmdoc, ..record });
    drop_key_clears_one_key(state, path);
}

/// The state is saved behind every action but those that leave it alone: a created folder, a conflict
/// and a skipped path.
pub proof fn changed_states_are_saved(
    state: Seq<(Seq<char>, StateView)>,
    action: ActionView,
    done: DoneView,
)
    ensures
        saves_state(action) <==> !(action is CreateRemoteFolder || action is Conflict
            || action is Skip),
        state_after(state, action, done) != state ==> saves_state(action),
{
}

/// One for an action of a kind.
pub open spec fn one_for(is_so: bool) -> int {
    if is_so {
        1
    } else {
        0
    }
}

/// The outcome counts every action once, under its own kind, and keeps what was skipped or in conflict
/// with its reason, in order. The device counts as modified from the first action on that writes it.
pub proof fn outcomes_count_each_action(actions: Seq<ActionView>, n: nat)
    requires
        n < actions.len(),
    ensures
        ({
            let o = outcome_of(actions, n);
            let after = outcome_of(actions, n + 1);
            let action = actions[n as int];
            &&& after.folders_created == o.folders_created + one_for(action is CreateRemoteFolder)
            &&& after.uploaded == o.uploaded + one_for(action is Upload)
            &&& after.updated == o.updated + one_for(action is UpdateRemote)
            &&& after.downloaded == o.downloaded + one_for(action is Download)
            &&& after.deleted_local == o.deleted_local + one_for(action is DeleteLocal)
            &&& after.deleted_remote == o.deleted_remote + one_for(action is DeleteRemote)
            &&& after.modified_remote == (o.modified_remote || action is CreateRemoteFolder
                || action is Upload || action is UpdateRemote || action is DeleteRemote)
            &&& after.skipped == match action {
                ActionView::Skip { path, reason } => o.skipped.push((path, reason)),
                _ => o.skipped,
            }
            &&& after.conflicts == match action {
                ActionView::Conflict { path, reason } => o.conflicts.push((path, reason)),
                _ => o.conflicts,
            }
        }),
{
}

/// Before the first action nothing has been counted.
pub proof fn outcomes_start_from_nothing(actions: Seq<ActionView>)
    ensures
        ({
            let o = outcome_of(actions, 0);
            &&& o.folders_created == 0 && o.uploaded == 0 && o.updated == 0 && o.downloaded == 0
            &&& o.deleted_local == 0 && o.deleted_remote == 0 && !o.modified_remote
            &&& o.skipped.len() == 0 && o.conflicts.len() == 0
        }),
        change_count(actions, 0) == 0,
{
}

/// Every action counts as a change but a conflict and a skipped path.
pub proof fn changes_are_counted_once(actions: Seq<ActionView>, n: nat)
    requires
        n < actions.len(),
    ensures
        change_count(actions, n + 1) == change_count(actions, n) + one_for(
            !(actions[n as int] is Conflict || actions[n as int] is Skip),
        ),
{
}

/// What is told of an action is its number among the changes, how many there are, what is done and
/// with which path.
pub proof fn progress_names_the_path(
    number: nat,
    total: nat,
    path: Seq<char>,
    uuid: Seq<char>,
    kind: DocKind,
    remote_dir: Seq<char>,
    name: Seq<char>,
    doc_type: RemoteType,
    size_bytes: Option<u64>,
    last_modified: i64,
    reason: Seq<char>,
)
    ensures
        ({
            let head = "["@ + decimal(number) + "/"@ + decimal(total) + "] "@;
            let upload = ActionView::Upload { local: path, kind, remote_dir, name };
            let update = ActionView::UpdateRemote { local: path, kind, uuid };
            let fetch = ActionView::Download {
                local: path,
                uuid,
                doc_type,
                size_bytes,
                last_modified,
            };
            &&& progress_text(number, total, upload) == head + if kind == DocKind::Rmdoc {
                "restore  "@ + path
            } else if kind == DocKind::Pdf || kind == DocKind::Epub {
                "upload   "@ + path
            } else {
                "upload   "@ + path + " (as EPUB)"@
            }
            &&& progress_text(number, total, update) == head + ("update   "@ + path)
            &&& progress_text(number, total, fetch) == head + if doc_type == RemoteType::Notebook {
                "download "@ + path + " (notebook bundle)"@
            } else {
                "download "@ + path
            }
            &&& progress_text(number, total, ActionView::CreateRemoteFolder { rel_dir: path })
                == head + ("mkdir    "@ + path + "/"@)
            &&& progress_text(number, total, ActionView::DeleteRemote { path, uuid }) == head + (
            "delete   "@ + path + " (on device)"@)
            &&& progress_text(number, total, ActionView::DeleteLocal { path }) == head + (
            "delete   "@ + path + " (local)"@)
            &&& progress_text(number, total, ActionView::Forget { path }) == head + ("forget   "@
                + path + " (stale sync mapping)"@)
            &&& description(ActionView::Conflict { path, reason }) == "conflict "@ + path + " ("@
                + reason + ")"@
            &&& description(ActionView::Skip { path, reason }) == "skip     "@ + path + " ("@
                + reason + ")"@
        }),
{
}

/// Every action changes something but a conflict and a skipped path, and only an update of a bundle is
/// one that is never made.
pub proof fn only_notes_change_nothing(action: ActionView)
    ensures
        is_change(action) <==> !(action is Conflict || action is Skip),
        is_bundle_push(action) <==> (action matches ActionView::UpdateRemote { kind, .. } && kind
            == DocKind::Rmdoc),
{
}

} // verus!
