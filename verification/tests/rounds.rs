//! Whole syncs, against a device and a directory that are kept in memory.
use libremarkable_utils::execute::{Done, Execution, Work};
use libremarkable_utils::plan::plan;
use libremarkable_utils::snapshot::remote_snapshot;
use libremarkable_utils::sync::{
    describe, ConflictPolicy, DocKind, LocalEntry, Mode, Plan, RemoteSnapshot, SyncAction,
    SyncOptions, SyncState,
};
use libremarkable_utils::xochitl::{Item, ItemKind};

struct World {
    items: Vec<Item>,
    files: Vec<LocalEntry>,
    clock: i64,
    fresh: usize,
}

fn item(uuid: &str, name: &str, parent: &str, file_type: Option<&str>, modified: i64) -> Item {
    Item {
        uuid: uuid.to_string(),
        visible_name: name.to_string(),
        parent: parent.to_string(),
        kind: match file_type {
            Some(_) => ItemKind::Document,
            None => ItemKind::Folder,
        },
        file_type: file_type.map(|t| t.to_string()),
        created_time: 0,
        last_modified: modified,
        size_bytes: Some(7),
    }
}

fn file(rel: &str, kind: DocKind, size: u64, mtime: i64) -> LocalEntry {
    LocalEntry {
        rel_path: rel.to_string(),
        kind,
        size,
        mtime_ms: mtime,
    }
}

fn options(mode: Mode, delete: bool, conflict: ConflictPolicy) -> SyncOptions {
    SyncOptions {
        mode,
        delete,
        conflict,
    }
}

fn two_way() -> SyncOptions {
    options(Mode::TwoWay, false, ConflictPolicy::Skip)
}

impl World {
    fn new(items: Vec<Item>, files: Vec<LocalEntry>) -> World {
        World {
            items,
            files,
            clock: 1000,
            fresh: 0,
        }
    }

    fn tick(&mut self) -> i64 {
        self.clock += 1;
        self.clock
    }

    fn stat(&self, path: &str) -> (u64, i64) {
        let found = self.files.iter().find(|f| f.rel_path == path).unwrap();
        (found.size, found.mtime_ms)
    }

    fn store(&mut self, local: &str, parent: &str, name: &str, file_type: Option<&str>) -> Done {
        self.fresh += 1;
        let uuid = format!("new-{}", self.fresh);
        let now = self.tick();
        self.items.push(item(&uuid, name, parent, file_type, now));
        if file_type.is_none() {
            return Done::Created { uuid };
        }
        let (local_size, local_mtime_ms) = self.stat(local);
        Done::Stored {
            uuid,
            last_modified: now,
            local_size,
            local_mtime_ms,
        }
    }

    fn refresh(&mut self, uuid: &str, local: &str) -> Done {
        let now = self.tick();
        let found = self.items.iter_mut().find(|i| i.uuid == uuid).unwrap();
        found.last_modified = now;
        let (local_size, local_mtime_ms) = self.stat(local);
        Done::Refreshed {
            last_modified: now,
            local_size,
            local_mtime_ms,
        }
    }

    fn fetch(&mut self, local: &str, kind: DocKind) -> Done {
        let now = self.tick();
        self.files.retain(|f| f.rel_path != local);
        self.files.push(file(local, kind, 7, now));
        Done::Fetched {
            local_size: 7,
            local_mtime_ms: now,
        }
    }

    fn perform(&mut self, work: Work) -> Done {
        match work {
            Work::Nothing => Done::Nothing,
            Work::CreateFolder { name, parent_uuid } => self.store("", &parent_uuid, &name, None),
            Work::StorePayload {
                local,
                parent_uuid,
                name,
                file_type,
            } => self.store(&local, &parent_uuid, &name, Some(file_type)),
            Work::StoreText {
                local,
                parent_uuid,
                name,
                ..
            } => self.store(&local, &parent_uuid, &name, Some("epub")),
            Work::Restore {
                local,
                parent_uuid,
                name,
            } => self.store(&local, &parent_uuid, &name, Some("notebook")),
            Work::UpdatePayload { uuid, local, .. } => self.refresh(&uuid, &local),
            Work::UpdateText { uuid, local, .. } => self.refresh(&uuid, &local),
            Work::FetchBundle { local, .. } => self.fetch(&local, DocKind::Rmdoc),
            Work::FetchPayload {
                local, file_type, ..
            } => {
                let kind = match file_type {
                    "pdf" => DocKind::Pdf,
                    _ => DocKind::Epub,
                };
                self.fetch(&local, kind)
            }
            Work::DeleteRemote { uuid } => {
                self.items.retain(|i| i.uuid != uuid);
                Done::Nothing
            }
            Work::DeleteLocal { path } => {
                self.files.retain(|f| f.rel_path != path);
                Done::Nothing
            }
        }
    }

    fn snapshot(&self) -> RemoteSnapshot {
        remote_snapshot(&self.items, "")
    }

    fn plan(&self, options: SyncOptions, state: &SyncState) -> Plan {
        plan(options, &self.files, &self.snapshot(), state)
    }

    /// Plans and applies one sync; gives back the new state and the progress lines.
    fn sync(&mut self, options: SyncOptions, state: SyncState) -> (SyncState, Vec<String>) {
        let plan = self.plan(options, &state);
        let mut run = Execution::new(plan, self.snapshot().folders, state);
        let mut shown = Vec::new();
        let mut saves = 0;
        while run.current().is_some() {
            if let Some(line) = run.progress_line() {
                shown.push(line);
            }
            if run.needs_save() {
                saves += 1;
            }
            let work = run.work().unwrap();
            let done = self.perform(work);
            run.complete(done);
        }
        assert_eq!(saves + run.outcome.folders_created, shown.len());
        (run.state, shown)
    }
}

fn described(plan: &Plan) -> Vec<String> {
    plan.actions.iter().map(describe).collect()
}

fn both_sides() -> World {
    World::new(
        vec![
            item("b", "Books", "", None, 0),
            item("alg", "Algebra", "b", Some("pdf"), 10),
            item("nb", "Sketches", "", Some("notebook"), 20),
        ],
        vec![
            file("Papers/2024/one.pdf", DocKind::Pdf, 3, 30),
            file("notes.md", DocKind::Markdown, 4, 40),
            file("story.epub", DocKind::Epub, 5, 50),
        ],
    )
}

#[test]
fn a_second_sync_does_nothing() {
    let mut world = both_sides();
    let (state, shown) = world.sync(two_way(), SyncState::fresh());
    assert_eq!(
        shown,
        vec![
            "[1/7] mkdir    Papers/",
            "[2/7] mkdir    Papers/2024/",
            "[3/7] download Books/Algebra.pdf",
            "[4/7] upload   Papers/2024/one.pdf",
            "[5/7] download Sketches.rmdoc (notebook bundle)",
            "[6/7] upload   notes.md (as EPUB)",
            "[7/7] upload   story.epub",
        ]
    );
    assert_eq!(state.version, 1);
    assert_eq!(state.entries.len(), 5);
    for mode in [Mode::TwoWay, Mode::Push, Mode::Pull] {
        for delete in [false, true] {
            for policy in [
                ConflictPolicy::Skip,
                ConflictPolicy::Newest,
                ConflictPolicy::PreferLocal,
                ConflictPolicy::PreferRemote,
            ] {
                assert!(world.plan(options(mode, delete, policy), &state).actions.is_empty());
            }
        }
    }
}

#[test]
fn changes_on_either_side_come_to_rest() {
    let mut world = both_sides();
    let (state, _) = world.sync(two_way(), SyncState::fresh());
    // One file changes, one document changes, one of each is deleted.
    world.files.iter_mut().find(|f| f.rel_path == "notes.md").unwrap().size = 99;
    world.items.iter_mut().find(|i| i.uuid == "nb").unwrap().last_modified = 77;
    world.files.retain(|f| f.rel_path != "Books/Algebra.pdf");
    world.items.retain(|i| i.visible_name != "story");
    let keep = options(Mode::TwoWay, true, ConflictPolicy::Skip);
    let (state, shown) = world.sync(keep, state);
    assert_eq!(
        shown,
        vec![
            "[1/4] download Sketches.rmdoc (notebook bundle)",
            "[2/4] update   notes.md",
            "[3/4] delete   Books/Algebra.pdf (on device)",
            "[4/4] delete   story.epub (local)",
        ]
    );
    assert_eq!(state.entries.len(), 3);
    assert!(!state.entries.contains_key("story.epub"));
    assert!(!state.entries.contains_key("Books/Algebra.pdf"));
    assert!(world.plan(keep, &state).actions.is_empty());
}

#[test]
fn stale_mappings_are_forgotten_once() {
    let mut world = both_sides();
    let (state, _) = world.sync(two_way(), SyncState::fresh());
    world.files.retain(|f| f.rel_path != "story.epub");
    world.items.retain(|i| i.visible_name != "story");
    let (state, shown) = world.sync(two_way(), state);
    assert_eq!(shown, vec!["[1/1] forget   story.epub (stale sync mapping)"]);
    assert!(world.plan(two_way(), &state).actions.is_empty());
}

#[test]
fn plans_come_in_stages() {
    let mut world = both_sides();
    let (state, _) = world.sync(two_way(), SyncState::fresh());
    world.files.push(file("New/a.pdf", DocKind::Pdf, 1, 1));
    world.files.push(file("New/b.pdf", DocKind::Pdf, 1, 1));
    world.files.push(file("New/b.epub", DocKind::Epub, 1, 1));
    world.files.retain(|f| f.rel_path != "notes.md" && f.rel_path != "story.epub");
    world.items.retain(|i| i.visible_name != "story");
    let keep = options(Mode::TwoWay, true, ConflictPolicy::Skip);
    assert_eq!(
        described(&world.plan(keep, &state)),
        vec![
            "mkdir    New/",
            "upload   New/a.pdf",
            "delete   notes.md (on device)",
            "forget   story.epub (stale sync mapping)",
            "skip     New/b.epub (multiple local files map to the same device name)",
            "skip     New/b.pdf (multiple local files map to the same device name)",
        ]
    );
}

#[test]
fn one_way_syncs_write_one_side() {
    let world = both_sides();
    let state = SyncState::fresh();
    for action in &world.plan(options(Mode::Push, true, ConflictPolicy::Newest), &state).actions {
        assert!(!matches!(
            action,
            SyncAction::Download { .. } | SyncAction::DeleteLocal { .. }
        ));
    }
    for action in &world.plan(options(Mode::Pull, true, ConflictPolicy::Newest), &state).actions {
        assert!(matches!(action, SyncAction::Download { .. }));
    }
}

#[test]
fn one_way_syncs_can_be_repeated() {
    for mode in [Mode::Push, Mode::Pull] {
        let mut world = both_sides();
        let once = options(mode, false, ConflictPolicy::Skip);
        let (state, shown) = world.sync(once, SyncState::fresh());
        assert!(!shown.is_empty());
        assert!(world.plan(once, &state).actions.is_empty());
        // The other direction still has something to do.
        assert!(!world.plan(two_way(), &state).actions.is_empty());
    }
}

#[test]
fn deletions_need_a_mapping() {
    let mut world = both_sides();
    world.files.clear();
    let strict = options(Mode::Push, true, ConflictPolicy::PreferLocal);
    assert!(world.plan(strict, &SyncState::fresh()).actions.is_empty());
    world.items.clear();
    assert!(world.plan(strict, &SyncState::fresh()).actions.is_empty());
}

#[test]
fn transferred_paths_do_not_collide() {
    let mut world = both_sides();
    world.items.push(item("nb2", "Sketches", "", Some("pdf"), 5));
    let shown = described(&world.plan(two_way(), &SyncState::fresh()));
    // Two items of one name in one folder: neither is touched.
    assert!(!shown.iter().any(|line| line.starts_with("download Sketches")));
    assert_eq!(shown.iter().filter(|line| line.starts_with("skip     Sketches")).count(), 2);
}

#[test]
fn reports_fill_the_outcome() {
    let mut world = both_sides();
    let state = SyncState::fresh();
    let plan = world.plan(two_way(), &state);
    assert_eq!(plan.changes(), 7);
    assert!(plan.actions.iter().all(|a| a.changes_something()));
    let mut run = Execution::new(plan, world.snapshot().folders, state);
    while run.current().is_some() {
        let work = run.work().unwrap();
        let done = world.perform(work);
        run.complete(done);
    }
    assert_eq!(run.outcome.folders_created, 2);
    assert_eq!(run.outcome.uploaded, 3);
    assert_eq!(run.outcome.downloaded, 2);
    assert_eq!(run.outcome.updated, 0);
    assert_eq!(run.outcome.deleted_local, 0);
    assert_eq!(run.outcome.deleted_remote, 0);
    assert!(run.outcome.modified_remote);
    assert!(run.outcome.skipped.is_empty() && run.outcome.conflicts.is_empty());
    assert_eq!(run.state.entries.get("notes.md").unwrap().kind, DocKind::Markdown);
    assert_eq!(run.folders.get("Papers").map(|u| u.as_str()), Some("new-1"));
    assert_eq!(run.folders.get("Papers/2024").map(|u| u.as_str()), Some("new-2"));
}

#[test]
fn conflicts_are_recorded_and_change_nothing() {
    let mut world = both_sides();
    let (state, _) = world.sync(two_way(), SyncState::fresh());
    world.files.iter_mut().find(|f| f.rel_path == "story.epub").unwrap().size = 99;
    world.items.iter_mut().find(|i| i.visible_name == "story").unwrap().last_modified = 9;
    let plan = world.plan(two_way(), &state);
    assert_eq!(plan.changes(), 0);
    let mut run = Execution::new(plan, world.snapshot().folders, state);
    assert!(run.progress_line().is_none());
    assert!(!run.needs_save());
    assert!(matches!(run.work(), Ok(Work::Nothing)));
    run.complete(Done::Nothing);
    assert!(run.current().is_none());
    assert_eq!(run.outcome.conflicts.len(), 1);
    assert_eq!(run.outcome.conflicts[0].0, "story.epub");
    assert!(!run.outcome.modified_remote);
    assert_eq!(run.state.entries.get("story.epub").unwrap().local_size, 5);
}
