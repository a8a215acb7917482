//! Applying a plan, one action at a time: what has to be done outside for each action, and what
//! is recorded when it is done.
use vstd::prelude::*;
use crate::error::{agrees, Error, ErrorView};
use crate::number::{decimal, show_u64};
use crate::pathmap::{drop_key, keys, put, put_sets_one_key, value_of, PathMap};
use crate::plan::{decision, planned, Decision};
use crate::plan_laws::{folders_are_there_in_time, is_there_at};
use crate::sync::{
    change_count, describe, description, is_change, pulled_as, split_dir, split_path, split_target,
    target_of, ActionView, DocKind, LocalView, Plan, RemoteType, RemoteView, SnapshotView,
    StateEntry, StateView, SyncAction, SyncOptions, SyncState,
};
use crate::text::{ascending, cat, cat5};

verus! {

/// Work outside the library that an action asks for.
#[derive(Debug)]
pub enum Work {
    /// Nothing to do.
    Nothing,
    /// Create a folder on the device.
    CreateFolder { name: String, parent_uuid: String },
    /// Store a local file on the device as a new document.
    StorePayload { local: String, parent_uuid: String, name: String, file_type: &'static str },
    /// Store a local text on the device as a new EPUB.
    StoreText { local: String, parent_uuid: String, name: String, markdown: bool },
    /// Restore a notebook bundle on the device as a new document.
    Restore { local: String, parent_uuid: String, name: String },
    /// Overwrite the payload of a device document with a local file.
    UpdatePayload { uuid: String, file_type: &'static str, local: String },
    /// Overwrite the payload of a device document with an EPUB made of a local text.
    UpdateText { uuid: String, title: String, markdown: bool, local: String },
    /// Write a notebook bundle to a local file.
    FetchBundle { uuid: String, local: String },
    /// Write the payload of a device document to a local file.
    FetchPayload { uuid: String, file_type: &'static str, local: String, size_bytes: Option<u64> },
    DeleteRemote { uuid: String },
    DeleteLocal { path: String },
}

/// What a [`Work`] holds.
pub enum WorkView {
    Nothing,
    CreateFolder { name: Seq<char>, parent_uuid: Seq<char> },
    StorePayload {
        local: Seq<char>,
        parent_uuid: Seq<char>,
        name: Seq<char>,
        file_type: Seq<char>,
    },
    StoreText { local: Seq<char>, parent_uuid: Seq<char>, name: Seq<char>, markdown: bool },
    Restore { local: Seq<char>, parent_uuid: Seq<char>, name: Seq<char> },
    UpdatePayload { uuid: Seq<char>, file_type: Seq<char>, local: Seq<char> },
    UpdateText { uuid: Seq<char>, title: Seq<char>, markdown: bool, local: Seq<char> },
    FetchBundle { uuid: Seq<char>, local: Seq<char> },
    FetchPayload {
        uuid: Seq<char>,
        file_type: Seq<char>,
        local: Seq<char>,
        size_bytes: Option<u64>,
    },
    DeleteRemote { uuid: Seq<char> },
    DeleteLocal { path: Seq<char> },
}

impl DeepView for Work {
    type V = WorkView;

    open spec fn deep_view(&self) -> WorkView {
        match *self {
            Work::Nothing => WorkView::Nothing,
            Work::CreateFolder { name, parent_uuid } => WorkView::CreateFolder {
                name: name@,
                parent_uuid: parent_uuid@,
            },
            Work::StorePayload { local, parent_uuid, name, file_type } => WorkView::StorePayload {
                local: local@,
                parent_uuid: parent_uuid@,
                name: name@,
                file_type: file_type@,
            },
            Work::StoreText { local, parent_uuid, name, markdown } => WorkView::StoreText {
                local: local@,
                parent_uuid: parent_uuid@,
                name: name@,
                markdown,
            },
            Work::Restore { local, parent_uuid, name } => WorkView::Restore {
                local: local@,
                parent_uuid: parent_uuid@,
                name: name@,
            },
            Work::UpdatePayload { uuid, file_type, local } => WorkView::UpdatePayload {
                uuid: uuid@,
                file_type: file_type@,
                local: local@,
            },
            Work::UpdateText { uuid, title, markdown, local } => WorkView::UpdateText {
                uuid: uuid@,
                title: title@,
                markdown,
                local: local@,
            },
            Work::FetchBundle { uuid, local } => WorkView::FetchBundle {
                uuid: uuid@,
                local: local@,
            },
            Work::FetchPayload { uuid, file_type, local, size_bytes } => WorkView::FetchPayload {
                uuid: uuid@,
                file_type: file_type@,
                local: local@,
                size_bytes,
            },
            Work::DeleteRemote { uuid } => WorkView::DeleteRemote { uuid: uuid@ },
            Work::DeleteLocal { path } => WorkView::DeleteLocal { path: path@ },
        }
    }
}

/// Whether an action is one that no plan for consistent state holds: a mapped notebook bundle is
/// never pushed.
pub open spec fn is_bundle_push(action: ActionView) -> bool {
    action matches ActionView::UpdateRemote { kind, .. } && kind == DocKind::Rmdoc
}

/// The outside work of an action; the folder that it goes to has to be known.
pub open spec fn work_of(action: ActionView, folders: Seq<(Seq<char>, Seq<char>)>) -> Result<
    WorkView,
    ErrorView,
> {
    match action {
        ActionView::CreateRemoteFolder { rel_dir } => {
            let (dir, name) = split_dir(rel_dir);
            match value_of(folders, dir) {
                Some(parent_uuid) => Ok(WorkView::CreateFolder { name, parent_uuid }),
                None => Err(ErrorView::PathNotFound(dir)),
            }
        },
        ActionView::Upload { local, kind, remote_dir, name } => match value_of(
            folders,
            remote_dir,
        ) {
            None => Err(ErrorView::PathNotFound(remote_dir)),
            Some(parent_uuid) => Ok(
                match kind {
                    DocKind::Pdf => WorkView::StorePayload {
                        local,
                        parent_uuid,
                        name,
                        file_type: "pdf"@,
                    },
                    DocKind::Epub => WorkView::StorePayload {
                        local,
                        parent_uuid,
                        name,
                        file_type: "epub"@,
                    },
                    DocKind::Markdown => WorkView::StoreText {
                        local,
                        parent_uuid,
                        name,
                        markdown: true,
                    },
                    DocKind::Text => WorkView::StoreText {
                        local,
                        parent_uuid,
                        name,
                        markdown: false,
                    },
                    DocKind::Rmdoc => WorkView::Restore { local, parent_uuid, name },
                },
            ),
        },
        ActionView::UpdateRemote { local, kind, uuid } => Ok(
            match kind {
                DocKind::Pdf => WorkView::UpdatePayload { uuid, file_type: "pdf"@, local },
                DocKind::Epub => WorkView::UpdatePayload { uuid, file_type: "epub"@, local },
                _ => WorkView::UpdateText {
                    uuid,
                    title: target_of(local).1,
                    markdown: kind == DocKind::Markdown,
                    local,
                },
            },
        ),
        ActionView::Download { local, uuid, doc_type, size_bytes, .. } => Ok(
            match doc_type {
                RemoteType::Notebook => WorkView::FetchBundle { uuid, local },
                RemoteType::Pdf => WorkView::FetchPayload {
                    uuid,
                    file_type: "pdf"@,
                    local,
                    size_bytes,
                },
                RemoteType::Epub => WorkView::FetchPayload {
                    uuid,
                    file_type: "epub"@,
                    local,
                    size_bytes,
                },
            },
        ),
        ActionView::DeleteRemote { uuid, .. } => Ok(WorkView::DeleteRemote { uuid }),
        ActionView::DeleteLocal { path } => Ok(WorkView::DeleteLocal { path }),
        ActionView::Forget { .. } => Ok(WorkView::Nothing),
        ActionView::Conflict { .. } => Ok(WorkView::Nothing),
        ActionView::Skip { .. } => Ok(WorkView::Nothing),
    }
}

/// The outside work of an action.
pub fn work_for(action: &SyncAction, folders: &PathMap<String>) -> (r: Result<Work, Error>)
    requires
        !is_bundle_push(action.deep_view()),
    ensures
        agrees(r, work_of(action.deep_view(), folders.pairs())),
{
    match action {
        SyncAction::CreateRemoteFolder { rel_dir } => {
            let (dir, name) = split_path(rel_dir.as_str());
            match folders.get(dir.as_str()) {
                Some(parent) => Ok(Work::CreateFolder { name, parent_uuid: parent.clone() }),
                None => Err(Error::PathNotFound(dir)),
            }
        },
        SyncAction::Upload { local, kind, remote_dir, name } => {
            let parent_uuid = match folders.get(remote_dir.as_str()) {
                Some(parent) => parent.clone(),
                None => {
                    return Err(Error::PathNotFound(remote_dir.clone()));
                },
            };
            let local = local.clone();
            let name = name.clone();
            Ok(
                match kind {
                    DocKind::Pdf => Work::StorePayload {
                        local,
                        parent_uuid,
                        name,
                        file_type: "pdf",
                    },
                    DocKind::Epub => Work::StorePayload {
                        local,
                        parent_uuid,
                        name,
                        file_type: "epub",
                    },
                    DocKind::Markdown => Work::StoreText {
                        local,
                        parent_uuid,
                        name,
                        markdown: true,
                    },
                    DocKind::Text => Work::StoreText {
                        local,
                        parent_uuid,
                        name,
                        markdown: false,
                    },
                    DocKind::Rmdoc => Work::Restore { local, parent_uuid, name },
                },
            )
        },
        SyncAction::UpdateRemote { local, kind, uuid } => {
            let uuid = uuid.clone();
            let path = local.clone();
            Ok(
                match kind {
                    DocKind::Pdf => Work::UpdatePayload { uuid, file_type: "pdf", local: path },
                    DocKind::Epub => Work::UpdatePayload { uuid, file_type: "epub", local: path },
                    _ => {
                        let (_, title) = split_target(local.as_str());
                        Work::UpdateText {
                            uuid,
                            title,
                            markdown: *kind == DocKind::Markdown,
                            local: path,
                        }
                    },
                },
            )
        },
        SyncAction::Download { local, uuid, doc_type, size_bytes, .. } => {
            let uuid = uuid.clone();
            let local = local.clone();
            Ok(
                match doc_type {
                    RemoteType::Notebook => Work::FetchBundle { uuid, local },
                    RemoteType::Pdf => Work::FetchPayload {
                        uuid,
                        file_type: "pdf",
                        local,
                        size_bytes: *size_bytes,
                    },
                    RemoteType::Epub => Work::FetchPayload {
                        uuid,
                        file_type: "epub",
                        local,
                        size_bytes: *size_bytes,
                    },
                },
            )
        },
        SyncAction::DeleteRemote { uuid, .. } => Ok(Work::DeleteRemote { uuid: uuid.clone() }),
        SyncAction::DeleteLocal { path } => Ok(Work::DeleteLocal { path: path.clone() }),
        SyncAction::Forget { .. } => Ok(Work::Nothing),
        SyncAction::Conflict { .. } => Ok(Work::Nothing),
        SyncAction::Skip { .. } => Ok(Work::Nothing),
    }
}

/// What came of the outside work of an action.
#[derive(Debug)]
pub enum Done {
    /// Nothing to report.
    Nothing,
    /// A folder was created.
    Created { uuid: String },
    /// A document was stored; size and time are those of the local file.
    Stored { uuid: String, last_modified: i64, local_size: u64, local_mtime_ms: i64 },
    /// A device document was overwritten; size and time are those of the local file.
    Refreshed { last_modified: i64, local_size: u64, local_mtime_ms: i64 },
    /// A local file was written, with this size and time.
    Fetched { local_size: u64, local_mtime_ms: i64 },
}

/// What a [`Done`] holds.
pub enum DoneView {
    Nothing,
    Created { uuid: Seq<char> },
    Stored { uuid: Seq<char>, last_modified: i64, local_size: u64, local_mtime_ms: i64 },
    Refreshed { last_modified: i64, local_size: u64, local_mtime_ms: i64 },
    Fetched { local_size: u64, local_mtime_ms: i64 },
}

impl DeepView for Done {
    type V = DoneView;

    open spec fn deep_view(&self) -> DoneView {
        match *self {
            Done::Nothing => DoneView::Nothing,
            Done::Created { uuid } => DoneView::Created { uuid: uuid@ },
            Done::Stored { uuid, last_modified, local_size, local_mtime_ms } => DoneView::Stored {
                uuid: uuid@,
                last_modified,
                local_size,
                local_mtime_ms,
            },
            Done::Refreshed { last_modified, local_size, local_mtime_ms } => DoneView::Refreshed {
                last_modified,
                local_size,
                local_mtime_ms,
            },
            Done::Fetched { local_size, local_mtime_ms } => DoneView::Fetched {
                local_size,
                local_mtime_ms,
            },
        }
    }
}

/// Whether a report is one that the action can have.
pub open spec fn reports_on(done: DoneView, action: ActionView) -> bool {
    match action {
        ActionView::CreateRemoteFolder { .. } => done is Created,
        ActionView::Upload { .. } => done is Stored,
        ActionView::UpdateRemote { .. } => done is Refreshed,
        ActionView::Download { .. } => done is Fetched,
        _ => done is Nothing,
    }
}

/// The folders after an action: a created one is known from then on.
pub open spec fn folders_after(
    folders: Seq<(Seq<char>, Seq<char>)>,
    action: ActionView,
    done: DoneView,
) -> Seq<(Seq<char>, Seq<char>)> {
    match (action, done) {
        (
            ActionView::CreateRemoteFolder { rel_dir },
            DoneView::Created { uuid },
        ) => put(folders, rel_dir, uuid),
        _ => folders,
    }
}

/// The state after an action: a transferred path is mapped to its document, with what both sides
/// look like now; a deleted or forgotten path is not mapped any more.
pub open spec fn state_after(
    state: Seq<(Seq<char>, StateView)>,
    action: ActionView,
    done: DoneView,
) -> Seq<(Seq<char>, StateView)> {
    match (action, done) {
        (
            ActionView::Upload { local, kind, .. },
            DoneView::Stored { uuid, last_modified, local_size, local_mtime_ms },
        ) => put(
            state,
            local,
            StateView {
                uuid,
                kind,
                local_size,
                local_mtime_ms,
                remote_last_modified: last_modified,
            },
        ),
        (
            ActionView::UpdateRemote { local, kind, uuid },
            DoneView::Refreshed { last_modified, local_size, local_mtime_ms },
        ) => put(
            state,
            local,
            StateView {
                uuid,
                kind,
                local_size,
                local_mtime_ms,
                remote_last_modified: last_modified,
            },
        ),
        (
            ActionView::Download { local, uuid, doc_type, last_modified, .. },
            DoneView::Fetched { local_size, local_mtime_ms },
        ) => put(
            state,
            local,
            StateView {
                uuid,
                kind: pulled_as(doc_type),
                local_size,
                local_mtime_ms,
                remote_last_modified: last_modified,
            },
        ),
        (ActionView::DeleteRemote { path, .. }, _) => drop_key(state, path),
        (ActionView::DeleteLocal { path }, _) => drop_key(state, path),
        (ActionView::Forget { path }, _) => drop_key(state, path),
        _ => state,
    }
}

/// Whether the state changes with an action and has to be saved behind it.
pub open spec fn saves_state(action: ActionView) -> bool {
    is_change(action) && !(action is CreateRemoteFolder)
}

/// Result of applying a plan.
#[derive(Debug)]
pub struct Outcome {
    pub folders_created: usize,
    pub uploaded: usize,
    pub updated: usize,
    pub downloaded: usize,
    pub deleted_local: usize,
    pub deleted_remote: usize,
    pub skipped: Vec<(String, String)>,
    pub conflicts: Vec<(String, String)>,
    /// Whether the device was modified (which asks for a restart of its interface).
    pub modified_remote: bool,
}

/// What an [`Outcome`] holds.
pub struct OutcomeView {
    pub folders_created: int,
    pub uploaded: int,
    pub updated: int,
    pub downloaded: int,
    pub deleted_local: int,
    pub deleted_remote: int,
    pub skipped: Seq<(Seq<char>, Seq<char>)>,
    pub conflicts: Seq<(Seq<char>, Seq<char>)>,
    pub modified_remote: bool,
}

impl DeepView for Outcome {
    type V = OutcomeView;

    open spec fn deep_view(&self) -> OutcomeView {
        OutcomeView {
            folders_created: self.folders_created as int,
            uploaded: self.uploaded as int,
            updated: self.updated as int,
            downloaded: self.downloaded as int,
            deleted_local: self.deleted_local as int,
            deleted_remote: self.deleted_remote as int,
            skipped: self.skipped.deep_view(),
            conflicts: self.conflicts.deep_view(),
            modified_remote: self.modified_remote,
        }
    }
}

/// The outcome of nothing.
pub open spec fn no_outcome() -> OutcomeView {
    OutcomeView {
        folders_created: 0,
        uploaded: 0,
        updated: 0,
        downloaded: 0,
        deleted_local: 0,
        deleted_remote: 0,
        skipped: Seq::empty(),
        conflicts: Seq::empty(),
        modified_remote: false,
    }
}

/// The outcome with one more action.
pub open spec fn outcome_with(o: OutcomeView, action: ActionView) -> OutcomeView {
    match action {
        ActionView::CreateRemoteFolder { .. } => OutcomeView {
            folders_created: o.folders_created + 1,
            modified_remote: true,
            ..o
        },
        ActionView::Upload { .. } => OutcomeView {
            uploaded: o.uploaded + 1,
            modified_remote: true,
            ..o
        },
        ActionView::UpdateRemote { .. } => OutcomeView {
            updated: o.updated + 1,
            modified_remote: true,
            ..o
        },
        ActionView::Download { .. } => OutcomeView { downloaded: o.downloaded + 1, ..o },
        ActionView::DeleteRemote { .. } => OutcomeView {
            deleted_remote: o.deleted_remote + 1,
            modified_remote: true,
            ..o
        },
        ActionView::DeleteLocal { .. } => OutcomeView { deleted_local: o.deleted_local + 1, ..o },
        ActionView::Forget { .. } => o,
        ActionView::Conflict { path, reason } => OutcomeView {
            conflicts: o.conflicts.push((path, reason)),
            ..o
        },
        ActionView::Skip { path, reason } => OutcomeView {
            skipped: o.skipped.push((path, reason)),
            ..o
        },
    }
}

/// The outcome of the first `n` actions.
pub open spec fn outcome_of(actions: Seq<ActionView>, n: nat) -> OutcomeView
    decreases n,
{
    if n == 0 {
        no_outcome()
    } else {
        outcome_with(outcome_of(actions, (n - 1) as nat), actions[n - 1])
    }
}

impl Default for Outcome {
    fn default() -> (r: Self)
        ensures
            r.deep_view() == no_outcome(),
    {
        let r = Outcome {
            folders_created: 0,
            uploaded: 0,
            updated: 0,
            downloaded: 0,
            deleted_local: 0,
            deleted_remote: 0,
            skipped: Vec::new(),
            conflicts: Vec::new(),
            modified_remote: false,
        };
        assert(r.skipped.deep_view() =~= Seq::empty());
        assert(r.conflicts.deep_view() =~= Seq::empty());
        r
    }
}

proof fn outcome_bounds(actions: Seq<ActionView>, n: nat)
    ensures
        ({
            let o = outcome_of(actions, n);
            &&& 0 <= o.folders_created <= n
            &&& 0 <= o.uploaded <= n
            &&& 0 <= o.updated <= n
            &&& 0 <= o.downloaded <= n
            &&& 0 <= o.deleted_local <= n
            &&& 0 <= o.deleted_remote <= n
        }),
        change_count(actions, n) <= n,
    decreases n,
{
    if n > 0 {
        outcome_bounds(actions, (n - 1) as nat);
    }
}

/// Records what both sides of a path look like.
pub fn record_state(
    state: &mut SyncState,
    rel_path: &str,
    kind: DocKind,
    uuid: &str,
    local_size: u64,
    local_mtime_ms: i64,
    remote_last_modified: i64,
)
    requires
        old(state).entries.wf(),
    ensures
        final(state).entries.wf(),
        final(state).version == old(state).version,
        final(state).entries.pairs() == put(
            old(state).entries.pairs(),
            rel_path@,
            (StateView {
                uuid: uuid@,
                kind,
                local_size,
                local_mtime_ms,
                remote_last_modified,
            }),
        ),
{
    let entry = StateEntry {
        uuid: uuid.to_owned(),
        kind,
        local_size,
        local_mtime_ms,
        remote_last_modified,
    };
    state.entries.insert(rel_path.to_owned(), entry);
}

/// The line that tells the progress of a changing action: its number, the number of all changing
/// actions, and what it does.
pub open spec fn progress_text(number: nat, total: nat, action: ActionView) -> Seq<char> {
    "["@ + decimal(number) + "/"@ + decimal(total) + "] "@ + description(action)
}

/// A plan being applied.
#[derive(Debug)]
pub struct Execution {
    pub plan: Plan,
    /// Folder relative path to UUID, with the folders created so far.
    pub folders: PathMap<String>,
    /// The sync state, with what was recorded so far.
    pub state: SyncState,
    pub outcome: Outcome,
    /// Number of actions applied.
    pub next: usize,
    /// Number of changing actions applied.
    pub done: usize,
    /// Number of changing actions of the plan.
    pub total: usize,
}

impl Execution {
    /// Number of actions applied.
    pub open spec fn position(&self) -> nat {
        self.next as nat
    }

    /// The actions of the plan.
    pub open spec fn actions(&self) -> Seq<ActionView> {
        self.plan.actions.deep_view()
    }

    /// The outcome and the counters are those of the actions applied.
    pub open spec fn wf(&self) -> bool {
        &&& self.folders.wf()
        &&& self.state.entries.wf()
        &&& self.next <= self.actions().len()
        &&& self.outcome.deep_view() == outcome_of(self.actions(), self.next as nat)
        &&& self.done == change_count(self.actions(), self.next as nat)
        &&& self.total == change_count(self.actions(), self.actions().len())
    }

    /// Starts to apply a plan.
    pub fn new(plan: Plan, folders: PathMap<String>, state: SyncState) -> (r: Execution)
        requires
            folders.wf(),
            state.entries.wf(),
        ensures
            r.wf(),
            r.position() == 0,
            r.actions() == plan.actions.deep_view(),
            r.folders.pairs() == folders.pairs(),
            r.state == state,
    {
        let total = plan.changes();
        Execution { plan, folders, state, outcome: Outcome::default(), next: 0, done: 0, total }
    }

    /// The action that comes next.
    pub fn current(&self) -> (r: Option<&SyncAction>)
        requires
            self.wf(),
        ensures
            match r {
                Some(action) => self.position() < self.actions().len() && action.deep_view()
                    == self.actions()[self.position() as int],
                None => self.position() == self.actions().len(),
            },
    {
        if self.next < self.plan.actions.len() {
            assert(self.actions()[self.next as int] == self.plan.actions[self.next as int].deep_view());
            Some(&self.plan.actions[self.next])
        } else {
            None
        }
    }

    /// The progress line of the action that comes next; none for one that changes nothing.
    pub fn progress_line(&self) -> (r: Option<String>)
        requires
            self.wf(),
            self.position() < self.actions().len(),
        ensures
            match r {
                Some(line) => is_change(self.actions()[self.position() as int]) && line@
                    == progress_text(
                    change_count(self.actions(), self.position()) + 1,
                    change_count(self.actions(), self.actions().len()),
                    self.actions()[self.position() as int],
                ),
                None => !is_change(self.actions()[self.position() as int]),
            },
    {
        let action = &self.plan.actions[self.next];
        assert(self.actions()[self.next as int] == action.deep_view());
        if !action.changes_something() {
            return None;
        }
        proof {
            outcome_bounds(self.actions(), self.next as nat);
            assert(self.actions().len() == self.plan.actions.len());
        }
        let number = show_u64((self.done + 1) as u64);
        let total = show_u64(self.total as u64);
        let head = cat5("[", number.as_str(), "/", total.as_str(), "] ");
        let text = describe(action);
        Some(cat(head.as_str(), text.as_str()))
    }

    /// The outside work of the action that comes next.
    pub fn work(&self) -> (r: Result<Work, Error>)
        requires
            self.wf(),
            self.position() < self.actions().len(),
            !is_bundle_push(self.actions()[self.position() as int]),
        ensures
            agrees(
                r,
                work_of(self.actions()[self.position() as int], self.folders.pairs()),
            ),
    {
        assert(self.actions()[self.next as int] == self.plan.actions[self.next as int].deep_view());
        work_for(&self.plan.actions[self.next], &self.folders)
    }

    /// Whether the state has to be saved behind the action that comes next.
    pub fn needs_save(&self) -> (r: bool)
        requires
            self.wf(),
            self.position() < self.actions().len(),
        ensures
            r == saves_state(self.actions()[self.position() as int]),
    {
        let action = &self.plan.actions[self.next];
        assert(self.actions()[self.next as int] == action.deep_view());
        match action {
            SyncAction::CreateRemoteFolder { .. } => false,
            _ => action.changes_something(),
        }
    }

    /// Records that the action that comes next is done, and goes on to the one behind it.
    pub fn complete(&mut self, done: Done)
        requires
            old(self).wf(),
            old(self).position() < old(self).actions().len(),
            reports_on(done.deep_view(), old(self).actions()[old(self).position() as int]),
        ensures
            final(self).wf(),
            final(self).actions() == old(self).actions(),
            final(self).position() == old(self).position() + 1,
            final(self).folders.pairs() == folders_after(
                old(self).folders.pairs(),
                old(self).actions()[old(self).position() as int],
                done.deep_view(),
            ),
            final(self).state.version == old(self).state.version,
            final(self).state.entries.pairs() == state_after(
                old(self).state.entries.pairs(),
                old(self).actions()[old(self).position() as int],
                done.deep_view(),
            ),
    {
        let ghost actions = self.actions();
        let ghost at = self.next as int;
        let ghost action = actions[at];
        let ghost o = self.outcome.deep_view();
        proof {
            assert(action == self.plan.actions[at].deep_view());
            outcome_bounds(actions, self.next as nat);
            assert(actions.len() == self.plan.actions.len());
        }
        if self.plan.actions[self.next].changes_something() {
            self.done += 1;
        }
        match &self.plan.actions[self.next] {
            SyncAction::CreateRemoteFolder { rel_dir } => {
                if let Done::Created { uuid } = done {
                    self.folders.insert(rel_dir.clone(), uuid);
                }
                self.outcome.folders_created += 1;
                self.outcome.modified_remote = true;
            },
            SyncAction::Upload { local, kind, .. } => {
                if let Done::Stored { uuid, last_modified, local_size, local_mtime_ms } = done {
                    record_state(
                        &mut self.state,
                        local.as_str(),
                        *kind,
                        uuid.as_str(),
                        local_size,
                        local_mtime_ms,
                        last_modified,
                    );
                }
                self.outcome.uploaded += 1;
                self.outcome.modified_remote = true;
            },
            SyncAction::UpdateRemote { local, kind, uuid } => {
                if let Done::Refreshed { last_modified, local_size, local_mtime_ms } = done {
                    record_state(
                        &mut self.state,
                        local.as_str(),
                        *kind,
                        uuid.as_str(),
                        local_size,
                        local_mtime_ms,
                        last_modified,
                    );
                }
                self.outcome.updated += 1;
                self.outcome.modified_remote = true;
            },
            SyncAction::Download { local, uuid, doc_type, last_modified, .. } => {
                if let Done::Fetched { local_size, local_mtime_ms } = done {
                    record_state(
                        &mut self.state,
                        local.as_str(),
                        doc_type.pulled_kind(),
                        uuid.as_str(),
                        local_size,
                        local_mtime_ms,
                        *last_modified,
                    );
                }
                self.outcome.downloaded += 1;
            },
            SyncAction::DeleteRemote { path, .. } => {
                self.state.entries.remove(path.as_str());
                self.outcome.deleted_remote += 1;
                self.outcome.modified_remote = true;
            },
            SyncAction::DeleteLocal { path } => {
                self.state.entries.remove(path.as_str());
                self.outcome.deleted_local += 1;
            },
            SyncAction::Forget { path } => {
                self.state.entries.remove(path.as_str());
            },
            SyncAction::Conflict { path, reason } => {
                self.outcome.conflicts.push((path.clone(), reason.clone()));
                assert(self.outcome.conflicts.deep_view() =~= o.conflicts.push((path@, reason@)));
            },
            SyncAction::Skip { path, reason } => {
                self.outcome.skipped.push((path.clone(), reason.clone()));
                assert(self.outcome.skipped.deep_view() =~= o.skipped.push((path@, reason@)));
            },
        }
        self.next += 1;
    }
}

/// The folders known when the action at position `p` comes, if `reports` tells what came of the
/// actions before it.
pub open spec fn folders_at(
    actions: Seq<ActionView>,
    folders: Seq<(Seq<char>, Seq<char>)>,
    reports: Seq<DoneView>,
    p: nat,
) -> Seq<(Seq<char>, Seq<char>)>
    decreases p,
{
    if p == 0 {
        folders
    } else {
        folders_after(
            folders_at(actions, folders, reports, (p - 1) as nat),
            actions[p - 1],
            reports[p - 1],
        )
    }
}

proof fn created_folders_are_known(
    actions: Seq<ActionView>,
    folders: Seq<(Seq<char>, Seq<char>)>,
    reports: Seq<DoneView>,
    p: nat,
    dir: Seq<char>,
)
    requires
        ascending(keys(folders)),
        p <= actions.len(),
        p <= reports.len(),
        forall|i: int| 0 <= i < p ==> reports_on(#[trigger] reports[i], actions[i]),
        is_there_at(actions, folders, p as int, dir),
    ensures
        ascending(keys(folders_at(actions, folders, reports, p))),
        value_of(folders_at(actions, folders, reports, p), dir) is Some,
    decreases p,
{
    if p > 0 {
        folders_stay_sorted(actions, folders, reports, (p - 1) as nat);
        let before = folders_at(actions, folders, reports, (p - 1) as nat);
        assert(reports_on(reports[p - 1], actions[p - 1]));
        if is_there_at(actions, folders, p - 1, dir) {
            created_folders_are_known(actions, folders, reports, (p - 1) as nat, dir);
        }
        match (actions[p - 1], reports[p - 1]) {
            (ActionView::CreateRemoteFolder { rel_dir }, DoneView::Created { uuid }) => {
                put_sets_one_key(before, rel_dir, uuid);
            },
            _ => {},
        }
        if !is_there_at(actions, folders, p - 1, dir) {
            assert(actions[p - 1] == (ActionView::CreateRemoteFolder { rel_dir: dir }));
        }
    }
}

proof fn folders_stay_sorted(
    actions: Seq<ActionView>,
    folders: Seq<(Seq<char>, Seq<char>)>,
    reports: Seq<DoneView>,
    p: nat,
)
    requires
        ascending(keys(folders)),
        p <= actions.len(),
        p <= reports.len(),
    ensures
        ascending(keys(folders_at(actions, folders, reports, p))),
    decreases p,
{
    if p > 0 {
        folders_stay_sorted(actions, folders, reports, (p - 1) as nat);
        match (actions[p - 1], reports[p - 1]) {
            (ActionView::CreateRemoteFolder { rel_dir }, DoneView::Created { uuid }) => {
                put_sets_one_key(
                    folders_at(actions, folders, reports, (p - 1) as nat),
                    rel_dir,
                    uuid,
                );
            },
            _ => {},
        }
    }
}

/// Applying a plan from the first action on, no action misses the folder it needs.
pub proof fn planned_actions_find_their_folders(
    options: SyncOptions,
    local: Seq<LocalView>,
    remote: SnapshotView,
    state: Seq<(Seq<char>, StateView)>,
    reports: Seq<DoneView>,
    p: int,
)
    requires
        forall|i: int| 0 <= i < remote.skips.len() ==> (#[trigger] remote.skips[i]) is Skip,
        ascending(keys(remote.folders)),
        value_of(remote.folders, Seq::empty()) is Some,
        0 <= p < planned(options, local, remote, state).len(),
        p <= reports.len(),
        forall|i: int|
            0 <= i < p ==> reports_on(
                #[trigger] reports[i],
                planned(options, local, remote, state)[i],
            ),
    ensures
        work_of(
            planned(options, local, remote, state)[p],
            folders_at(planned(options, local, remote, state), remote.folders, reports, p as nat),
        ) is Ok,
{
    let actions = planned(options, local, remote, state);
    folders_are_there_in_time(options, local, remote, state, p);
    match actions[p] {
        ActionView::Upload { remote_dir, .. } => {
            created_folders_are_known(actions, remote.folders, reports, p as nat, remote_dir);
        },
        ActionView::CreateRemoteFolder { rel_dir } => {
            created_folders_are_known(
                actions,
                remote.folders,
                reports,
                p as nat,
                split_dir(rel_dir).0,
            );
        },
        _ => {},
    }
}

/// The path, the document and the kind that a transfer maps, with the time of the document.
pub open spec fn mapped_by(action: ActionView, done: DoneView) -> Option<
    (Seq<char>, Seq<char>, DocKind, i64),
> {
    match (action, done) {
        (
            ActionView::Upload { local, kind, .. },
            DoneView::Stored { uuid, last_modified, .. },
        ) => Some((local, uuid, kind, last_modified)),
        (
            ActionView::UpdateRemote { local, kind, uuid },
            DoneView::Refreshed { last_modified, .. },
        ) => Some((local, uuid, kind, last_modified)),
        (
            ActionView::Download { local, uuid, doc_type, last_modified, .. },
            DoneView::Fetched { .. },
        ) => Some((local, uuid, pulled_as(doc_type), last_modified)),
        _ => None,
    }
}

/// The size and time of the local file that a report tells.
pub open spec fn reported_file(done: DoneView) -> (u64, i64) {
    match done {
        DoneView::Stored { local_size, local_mtime_ms, .. } => (local_size, local_mtime_ms),
        DoneView::Refreshed { local_size, local_mtime_ms, .. } => (local_size, local_mtime_ms),
        DoneView::Fetched { local_size, local_mtime_ms } => (local_size, local_mtime_ms),
        _ => (0, 0),
    }
}

/// A path that was just transferred needs nothing more: as long as the file and the document stay as
/// they were reported, the next plan leaves both alone, whatever the options. All other paths keep
/// what was recorded of them.
pub proof fn transferred_paths_are_settled(
    options: SyncOptions,
    state: Seq<(Seq<char>, StateView)>,
    action: ActionView,
    done: DoneView,
    entry: LocalView,
    doc: RemoteView,
    other: Seq<char>,
)
    requires
        ascending(keys(state)),
        mapped_by(action, done) is Some,
        entry.rel_path == mapped_by(action, done)->Some_0.0,
        (entry.size, entry.mtime_ms) == reported_file(done),
        doc.uuid == mapped_by(action, done)->Some_0.1,
        doc.last_modified == mapped_by(action, done)->Some_0.3,
        other != entry.rel_path,
    ensures
        ({
            let after = state_after(state, action, done);
            &&& value_of(after, entry.rel_path) matches Some(st) && st.uuid == doc.uuid
            &&& decision(
                options,
                value_of(after, entry.rel_path),
                Some(entry),
                Some(doc),
            ) == Decision::Nothing
            &&& value_of(after, other) == value_of(state, other)
        }),
{
    let (path, uuid, kind, last_modified) = mapped_by(action, done)->Some_0;
    let (local_size, local_mtime_ms) = reported_file(done);
    put_sets_one_key(
        state,
        path,
        StateView {
            uuid,
            kind,
            local_size,
            local_mtime_ms,
            remote_last_modified: last_modified,
        },
    );
}

} // verus!
