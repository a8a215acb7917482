use libremarkable_utils::plan::plan;
use libremarkable_utils::snapshot::remote_snapshot;
use libremarkable_utils::sync::{
    parse_endpoint, path_prefixes, split_target, ConflictPolicy, DocKind, Endpoint, LocalEntry,
    Mode, Plan, RemoteType, StateEntry, SyncAction, SyncOptions, SyncState,
};
use libremarkable_utils::xochitl::{Item, ItemKind};

fn folder(uuid: &str, name: &str, parent: &str) -> Item {
    Item {
        uuid: uuid.to_string(),
        visible_name: name.to_string(),
        parent: parent.to_string(),
        kind: ItemKind::Folder,
        file_type: None,
        created_time: 0,
        last_modified: 0,
        size_bytes: None,
    }
}

fn doc(uuid: &str, name: &str, parent: &str, file_type: &str, modified: i64) -> Item {
    Item {
        uuid: uuid.to_string(),
        visible_name: name.to_string(),
        parent: parent.to_string(),
        kind: ItemKind::Document,
        file_type: Some(file_type.to_string()),
        created_time: 0,
        last_modified: modified,
        size_bytes: Some(100),
    }
}

fn local(rel: &str, kind: DocKind, size: u64, mtime: i64) -> LocalEntry {
    LocalEntry {
        rel_path: rel.to_string(),
        kind,
        size,
        mtime_ms: mtime,
    }
}

fn entry(uuid: &str, kind: DocKind, size: u64, mtime: i64, remote: i64) -> StateEntry {
    StateEntry {
        uuid: uuid.to_string(),
        kind,
        local_size: size,
        local_mtime_ms: mtime,
        remote_last_modified: remote,
    }
}

fn push() -> SyncOptions {
    SyncOptions {
        mode: Mode::Push,
        delete: false,
        conflict: ConflictPolicy::Skip,
    }
}

fn pull() -> SyncOptions {
    SyncOptions {
        mode: Mode::Pull,
        delete: false,
        conflict: ConflictPolicy::Skip,
    }
}

fn two_way() -> SyncOptions {
    SyncOptions {
        mode: Mode::TwoWay,
        delete: false,
        conflict: ConflictPolicy::Skip,
    }
}

fn with_delete(mut options: SyncOptions) -> SyncOptions {
    options.delete = true;
    options
}

fn with_policy(mut options: SyncOptions, conflict: ConflictPolicy) -> SyncOptions {
    options.conflict = conflict;
    options
}

fn skips(plan: &Plan) -> Vec<&str> {
    plan.actions
        .iter()
        .filter_map(|a| match a {
            SyncAction::Skip { path, .. } => Some(path.as_str()),
            _ => None,
        })
        .collect()
}

fn conflicts(plan: &Plan) -> Vec<&str> {
    plan.actions
        .iter()
        .filter_map(|a| match a {
            SyncAction::Conflict { path, .. } => Some(path.as_str()),
            _ => None,
        })
        .collect()
}

// ---- endpoint parsing -------------------------------------------------

#[test]
fn only_slashes_make_an_endpoint_local() {
    assert_eq!(
        parse_endpoint("a\\b:c"),
        Endpoint::Remote {
            destination: "a\\b".to_string(),
            path: "c".to_string()
        }
    );
    assert_eq!(
        parse_endpoint("a/b:c"),
        Endpoint::Local("a/b:c".to_string())
    );
}

#[test]
fn endpoint_parsing_follows_scp_rules() {
    assert_eq!(
        parse_endpoint("./books"),
        Endpoint::Local("./books".to_string())
    );
    assert_eq!(
        parse_endpoint("/abs/path"),
        Endpoint::Local("/abs/path".to_string())
    );
    assert_eq!(
        parse_endpoint("remarkable:/books"),
        Endpoint::Remote {
            destination: "remarkable".to_string(),
            path: "/books".to_string()
        }
    );
    assert_eq!(
        parse_endpoint("root@10.11.99.1:Books/Math"),
        Endpoint::Remote {
            destination: "root@10.11.99.1".to_string(),
            path: "Books/Math".to_string()
        }
    );
    // Empty path after ':' = endpoint root.
    assert_eq!(
        parse_endpoint("rm:"),
        Endpoint::Remote {
            destination: "rm".to_string(),
            path: String::new()
        }
    );
    // Colon after a slash: local (scp rule).
    assert_eq!(
        parse_endpoint("./weird:name"),
        Endpoint::Local("./weird:name".to_string())
    );
    // Leading colon: local.
    assert_eq!(
        parse_endpoint(":oops"),
        Endpoint::Local(":oops".to_string())
    );
}

// ---- remote snapshot --------------------------------------------------

#[test]
fn snapshot_scopes_to_root_and_flags_duplicates() {
    let items = vec![
        folder("b", "Books", ""),
        doc("d1", "Doc", "b", "pdf", 5),
        doc("d2", "Doc", "b", "epub", 6), // duplicate sibling name
        doc("d3", "Note", "b", "notebook", 7),
        doc("bad", "we/ird", "b", "pdf", 8), // unusable name
        doc("outside", "Elsewhere", "", "pdf", 9),
    ];
    let snapshot = remote_snapshot(&items, "b");
    let names: Vec<&str> = snapshot.docs.iter().map(|d| d.name.as_str()).collect();
    assert_eq!(names, ["Note"]);
    assert_eq!(snapshot.docs[0].local_rel_path(), "Note.rmdoc");
    assert_eq!(snapshot.skips.len(), 3); // two duplicates + one bad name
    assert_eq!(snapshot.folders.get("").unwrap(), "b");
}

#[test]
fn snapshot_builds_nested_paths() {
    let items = vec![
        folder("a", "A", ""),
        folder("bb", "B", "a"),
        doc("d", "Deep", "bb", "pdf", 1),
    ];
    let snapshot = remote_snapshot(&items, "");
    assert_eq!(snapshot.folders.get("A/B").unwrap(), "bb");
    assert_eq!(snapshot.docs[0].local_rel_path(), "A/B/Deep.pdf");
}

// ---- push planning ----------------------------------------------------

#[test]
fn push_first_sync_uploads_and_creates_folders() {
    let locals = vec![
        local("a/b/notes.md", DocKind::Markdown, 10, 1),
        local("top.pdf", DocKind::Pdf, 20, 2),
    ];
    let snapshot = remote_snapshot(&[], "");
    let plan = plan(push(), &locals, &snapshot, &SyncState::default());
    assert_eq!(
        plan.actions,
        vec![
            SyncAction::CreateRemoteFolder {
                rel_dir: "a".to_string()
            },
            SyncAction::CreateRemoteFolder {
                rel_dir: "a/b".to_string()
            },
            SyncAction::Upload {
                local: "a/b/notes.md".to_string(),
                kind: DocKind::Markdown,
                remote_dir: "a/b".to_string(),
                name: "notes".to_string()
            },
            SyncAction::Upload {
                local: "top.pdf".to_string(),
                kind: DocKind::Pdf,
                remote_dir: String::new(),
                name: "top".to_string()
            },
        ]
    );
}

#[test]
fn push_mapped_unchanged_is_noop() {
    let locals = vec![local("n.pdf", DocKind::Pdf, 10, 1)];
    let snapshot = remote_snapshot(&[doc("u1", "n", "", "pdf", 5)], "");
    let mut state = SyncState::default();
    state
        .entries
        .insert("n.pdf".to_string(), entry("u1", DocKind::Pdf, 10, 1, 5));
    let plan = plan(push(), &locals, &snapshot, &state);
    assert!(plan.actions.is_empty());
}

#[test]
fn push_local_change_updates_in_place() {
    let locals = vec![local("n.md", DocKind::Markdown, 99, 9)];
    let snapshot = remote_snapshot(&[doc("u1", "n", "", "epub", 5)], "");
    let mut state = SyncState::default();
    state
        .entries
        .insert("n.md".to_string(), entry("u1", DocKind::Markdown, 10, 1, 5));
    let plan = plan(push(), &locals, &snapshot, &state);
    assert_eq!(
        plan.actions,
        vec![SyncAction::UpdateRemote {
            local: "n.md".to_string(),
            kind: DocKind::Markdown,
            uuid: "u1".to_string()
        }]
    );
}

#[test]
fn push_both_changed_is_conflict() {
    let locals = vec![local("n.pdf", DocKind::Pdf, 99, 9)];
    let snapshot = remote_snapshot(&[doc("u1", "n", "", "pdf", 6)], "");
    let mut state = SyncState::default();
    state
        .entries
        .insert("n.pdf".to_string(), entry("u1", DocKind::Pdf, 10, 1, 5));
    let plan = plan(push(), &locals, &snapshot, &state);
    assert_eq!(conflicts(&plan), ["n.pdf"]);
}

#[test]
fn push_mapped_rmdoc_never_pushes() {
    let locals = vec![local("n.rmdoc", DocKind::Rmdoc, 99, 9)];
    let snapshot = remote_snapshot(&[doc("u1", "n", "", "notebook", 5)], "");
    let mut state = SyncState::default();
    state
        .entries
        .insert("n.rmdoc".to_string(), entry("u1", DocKind::Rmdoc, 10, 1, 5));
    let plan = plan(push(), &locals, &snapshot, &state);
    assert_eq!(skips(&plan), ["n.rmdoc"]);
}

#[test]
fn push_unmapped_rmdoc_is_a_restore() {
    let locals = vec![local("backup.rmdoc", DocKind::Rmdoc, 10, 1)];
    let snapshot = remote_snapshot(&[], "");
    let plan = plan(push(), &locals, &snapshot, &SyncState::default());
    assert_eq!(
        plan.actions,
        vec![SyncAction::Upload {
            local: "backup.rmdoc".to_string(),
            kind: DocKind::Rmdoc,
            remote_dir: String::new(),
            name: "backup".to_string()
        }]
    );
}

#[test]
fn push_name_taken_on_device_skips() {
    let locals = vec![local("n.pdf", DocKind::Pdf, 10, 1)];
    let snapshot = remote_snapshot(&[doc("other", "n", "", "epub", 5)], "");
    let plan = plan(push(), &locals, &snapshot, &SyncState::default());
    assert_eq!(skips(&plan), ["n.pdf"]);
}

#[test]
fn push_folder_name_collision_skips() {
    let locals = vec![local("n.pdf", DocKind::Pdf, 10, 1)];
    let snapshot = remote_snapshot(&[folder("f", "n", "")], "");
    let plan = plan(push(), &locals, &snapshot, &SyncState::default());
    assert_eq!(skips(&plan), ["n.pdf"]);
}

#[test]
fn push_duplicate_local_targets_skip() {
    let locals = vec![
        local("n.md", DocKind::Markdown, 10, 1),
        local("n.pdf", DocKind::Pdf, 10, 1),
    ];
    let snapshot = remote_snapshot(&[], "");
    let plan = plan(push(), &locals, &snapshot, &SyncState::default());
    assert_eq!(skips(&plan).len(), 2);
}

#[test]
fn push_recopies_when_device_copy_vanished() {
    let locals = vec![local("n.pdf", DocKind::Pdf, 10, 1)];
    let snapshot = remote_snapshot(&[], ""); // mapped doc gone
    let mut state = SyncState::default();
    state
        .entries
        .insert("n.pdf".to_string(), entry("gone", DocKind::Pdf, 10, 1, 5));
    let plan = plan(push(), &locals, &snapshot, &state);
    assert!(matches!(plan.actions[0], SyncAction::Upload { .. }));
}

// ---- pull planning ----------------------------------------------------

#[test]
fn pull_first_sync_downloads_everything() {
    let items = vec![
        folder("b", "Books", ""),
        doc("d1", "Paper", "b", "pdf", 5),
        doc("d2", "Sketch", "", "notebook", 6),
    ];
    let snapshot = remote_snapshot(&items, "");
    let plan = plan(pull(), &[], &snapshot, &SyncState::default());
    let downloads: Vec<&str> = plan
        .actions
        .iter()
        .filter_map(|a| match a {
            SyncAction::Download { local, .. } => Some(local.as_str()),
            _ => None,
        })
        .collect();
    assert_eq!(downloads, ["Books/Paper.pdf", "Sketch.rmdoc"]);
}

#[test]
fn pull_mapped_text_import_is_noop_and_warns_on_remote_change() {
    let snapshot = remote_snapshot(&[doc("u1", "n", "", "epub", 9)], "");
    let mut state = SyncState::default();
    state
        .entries
        .insert("n.md".to_string(), entry("u1", DocKind::Markdown, 10, 1, 5));
    let locals = vec![local("n.md", DocKind::Markdown, 10, 1)];
    let plan = plan(pull(), &locals, &snapshot, &state);
    assert_eq!(skips(&plan), ["n.md"]); // warned, not downloaded

    // Unchanged remote: fully silent.
    let snapshot = remote_snapshot(&[doc("u1", "n", "", "epub", 5)], "");
    let plan = libremarkable_utils::plan::plan(pull(), &locals, &snapshot, &state);
    assert!(plan.actions.is_empty());
}

#[test]
fn pull_remote_change_downloads() {
    let snapshot = remote_snapshot(&[doc("u1", "n", "", "notebook", 9)], "");
    let mut state = SyncState::default();
    state
        .entries
        .insert("n.rmdoc".to_string(), entry("u1", DocKind::Rmdoc, 10, 1, 5));
    let locals = vec![local("n.rmdoc", DocKind::Rmdoc, 10, 1)];
    let plan = plan(pull(), &locals, &snapshot, &state);
    assert!(matches!(
        plan.actions[0],
        SyncAction::Download {
            doc_type: RemoteType::Notebook,
            last_modified: 9,
            ..
        }
    ));
}

#[test]
fn pull_conflicts_and_drift_are_reported() {
    // Both changed.
    let snapshot = remote_snapshot(&[doc("u1", "n", "", "pdf", 9)], "");
    let mut state = SyncState::default();
    state
        .entries
        .insert("n.pdf".to_string(), entry("u1", DocKind::Pdf, 10, 1, 5));
    let locals = vec![local("n.pdf", DocKind::Pdf, 99, 9)];
    let plan = plan(pull(), &locals, &snapshot, &state);
    assert_eq!(conflicts(&plan), ["n.pdf"]);

    // Destination (local) drift only.
    let snapshot = remote_snapshot(&[doc("u1", "n", "", "pdf", 5)], "");
    let plan = libremarkable_utils::plan::plan(pull(), &locals, &snapshot, &state);
    assert_eq!(conflicts(&plan), ["n.pdf"]);
}

#[test]
fn pull_recopies_locally_deleted_file() {
    let snapshot = remote_snapshot(&[doc("u1", "n", "", "pdf", 5)], "");
    let mut state = SyncState::default();
    state
        .entries
        .insert("n.pdf".to_string(), entry("u1", DocKind::Pdf, 10, 1, 5));
    let plan = plan(pull(), &[], &snapshot, &state);
    assert!(matches!(plan.actions[0], SyncAction::Download { .. }));
}

#[test]
fn pull_unmapped_local_collision_conflicts() {
    let snapshot = remote_snapshot(&[doc("u1", "n", "", "pdf", 5)], "");
    let locals = vec![local("n.pdf", DocKind::Pdf, 10, 1)];
    let plan = plan(pull(), &locals, &snapshot, &SyncState::default());
    assert_eq!(conflicts(&plan), ["n.pdf"]);
}

// ---- two-way planning -------------------------------------------------

#[test]
fn two_way_first_sync_merges_both_directions() {
    let locals = vec![local("only-local.pdf", DocKind::Pdf, 10, 1)];
    let snapshot = remote_snapshot(&[doc("u1", "only-remote", "", "notebook", 5)], "");
    let plan = plan(two_way(), &locals, &snapshot, &SyncState::default());
    assert!(plan.actions.iter().any(|a| matches!(
        a,
        SyncAction::Upload { local, .. } if local == "only-local.pdf"
    )));
    assert!(plan.actions.iter().any(|a| matches!(
        a,
        SyncAction::Download { local, .. } if local == "only-remote.rmdoc"
    )));
}

#[test]
fn two_way_propagates_each_side() {
    let mut state = SyncState::default();
    state
        .entries
        .insert("a.pdf".to_string(), entry("ua", DocKind::Pdf, 10, 1, 5));
    state
        .entries
        .insert("b.pdf".to_string(), entry("ub", DocKind::Pdf, 10, 1, 5));
    let locals = vec![
        local("a.pdf", DocKind::Pdf, 99, 9), // local changed
        local("b.pdf", DocKind::Pdf, 10, 1), // unchanged
    ];
    let snapshot = remote_snapshot(
        &[doc("ua", "a", "", "pdf", 5), doc("ub", "b", "", "pdf", 9)], // ub changed
        "",
    );
    let plan = plan(two_way(), &locals, &snapshot, &state);
    assert_eq!(
        plan.actions,
        vec![
            SyncAction::UpdateRemote {
                local: "a.pdf".to_string(),
                kind: DocKind::Pdf,
                uuid: "ua".to_string()
            },
            SyncAction::Download {
                local: "b.pdf".to_string(),
                uuid: "ub".to_string(),
                doc_type: RemoteType::Pdf,
                size_bytes: Some(100),
                last_modified: 9
            },
        ]
    );
}

#[test]
fn two_way_conflict_policies() {
    let mut state = SyncState::default();
    state
        .entries
        .insert("n.pdf".to_string(), entry("u1", DocKind::Pdf, 10, 1, 5));
    let snapshot = remote_snapshot(&[doc("u1", "n", "", "pdf", 50)], "");
    let locals = vec![local("n.pdf", DocKind::Pdf, 99, 100)]; // local newer

    // Default: conflict, nothing happens.
    let plan_skip = plan(two_way(), &locals, &snapshot, &state);
    assert_eq!(conflicts(&plan_skip), ["n.pdf"]);

    // Newest: local (mtime 100 > lastModified 50) wins.
    let plan_newest = plan(
        with_policy(two_way(), ConflictPolicy::Newest),
        &locals,
        &snapshot,
        &state,
    );
    assert!(matches!(
        plan_newest.actions[0],
        SyncAction::UpdateRemote { .. }
    ));

    // Newest with remote newer: download.
    let snapshot_newer = remote_snapshot(&[doc("u1", "n", "", "pdf", 500)], "");
    let plan_remote = plan(
        with_policy(two_way(), ConflictPolicy::Newest),
        &locals,
        &snapshot_newer,
        &state,
    );
    assert!(matches!(
        plan_remote.actions[0],
        SyncAction::Download { .. }
    ));

    // Explicit sides.
    let plan_local = plan(
        with_policy(two_way(), ConflictPolicy::PreferLocal),
        &locals,
        &snapshot,
        &state,
    );
    assert!(matches!(
        plan_local.actions[0],
        SyncAction::UpdateRemote { .. }
    ));
    let plan_remote = plan(
        with_policy(two_way(), ConflictPolicy::PreferRemote),
        &locals,
        &snapshot,
        &state,
    );
    assert!(matches!(
        plan_remote.actions[0],
        SyncAction::Download { .. }
    ));
}

#[test]
fn two_way_rmdoc_conflict_can_only_resolve_to_device() {
    let mut state = SyncState::default();
    state
        .entries
        .insert("n.rmdoc".to_string(), entry("u1", DocKind::Rmdoc, 10, 1, 5));
    let snapshot = remote_snapshot(&[doc("u1", "n", "", "notebook", 50)], "");
    let locals = vec![local("n.rmdoc", DocKind::Rmdoc, 99, 100)];

    // Local can never win for handwriting, even when preferred.
    let plan_local = plan(
        with_policy(two_way(), ConflictPolicy::PreferLocal),
        &locals,
        &snapshot,
        &state,
    );
    assert_eq!(skips(&plan_local), ["n.rmdoc"]);
    let plan_remote = plan(
        with_policy(two_way(), ConflictPolicy::PreferRemote),
        &locals,
        &snapshot,
        &state,
    );
    assert!(matches!(
        plan_remote.actions[0],
        SyncAction::Download { .. }
    ));
}

// ---- deletions --------------------------------------------------------

#[test]
fn push_delete_propagates_local_deletion() {
    let snapshot = remote_snapshot(&[doc("u1", "n", "", "pdf", 5)], "");
    let mut state = SyncState::default();
    state
        .entries
        .insert("n.pdf".to_string(), entry("u1", DocKind::Pdf, 10, 1, 5));

    // Without --delete: device keeps the document.
    let plan_keep = plan(push(), &[], &snapshot, &state);
    assert!(plan_keep.actions.is_empty());

    // With --delete: remove on device.
    let plan_delete = plan(with_delete(push()), &[], &snapshot, &state);
    assert_eq!(
        plan_delete.actions,
        vec![SyncAction::DeleteRemote {
            path: "n.pdf".to_string(),
            uuid: "u1".to_string()
        }]
    );
}

#[test]
fn push_delete_vs_remote_change_is_conflict() {
    let snapshot = remote_snapshot(&[doc("u1", "n", "", "pdf", 9)], ""); // changed
    let mut state = SyncState::default();
    state
        .entries
        .insert("n.pdf".to_string(), entry("u1", DocKind::Pdf, 10, 1, 5));

    let plan_skip = plan(with_delete(push()), &[], &snapshot, &state);
    assert_eq!(conflicts(&plan_skip), ["n.pdf"]);

    // Deletion side preferred: delete anyway.
    let plan_del = plan(
        with_policy(with_delete(push()), ConflictPolicy::PreferLocal),
        &[],
        &snapshot,
        &state,
    );
    assert!(matches!(
        plan_del.actions[0],
        SyncAction::DeleteRemote { .. }
    ));

    // Change side preferred (and Newest): keep the device copy,
    // forget the mapping.
    let plan_keep = plan(
        with_policy(with_delete(push()), ConflictPolicy::Newest),
        &[],
        &snapshot,
        &state,
    );
    assert!(
        plan_keep
            .actions
            .iter()
            .any(|a| matches!(a, SyncAction::Forget { .. }))
    );
}

#[test]
fn pull_delete_propagates_device_deletion() {
    let snapshot = remote_snapshot(&[], ""); // doc gone from device
    let mut state = SyncState::default();
    state
        .entries
        .insert("n.pdf".to_string(), entry("u1", DocKind::Pdf, 10, 1, 5));
    let locals = vec![local("n.pdf", DocKind::Pdf, 10, 1)]; // unchanged

    let plan_keep = plan(pull(), &locals, &snapshot, &state);
    assert!(plan_keep.actions.is_empty());

    let plan_delete = plan(with_delete(pull()), &locals, &snapshot, &state);
    assert_eq!(
        plan_delete.actions,
        vec![SyncAction::DeleteLocal {
            path: "n.pdf".to_string()
        }]
    );
}

#[test]
fn two_way_deletion_vs_change() {
    // Deleted on device, changed locally.
    let snapshot = remote_snapshot(&[], "");
    let mut state = SyncState::default();
    state
        .entries
        .insert("n.pdf".to_string(), entry("u1", DocKind::Pdf, 10, 1, 5));
    let locals = vec![local("n.pdf", DocKind::Pdf, 99, 9)]; // changed

    let plan_skip = plan(with_delete(two_way()), &locals, &snapshot, &state);
    assert_eq!(conflicts(&plan_skip), ["n.pdf"]);

    // Newest: the surviving change wins → restore to device.
    let plan_restore = plan(
        with_policy(with_delete(two_way()), ConflictPolicy::Newest),
        &locals,
        &snapshot,
        &state,
    );
    assert!(matches!(plan_restore.actions[0], SyncAction::Upload { .. }));

    // Deletion side preferred: delete locally.
    let plan_del = plan(
        with_policy(with_delete(two_way()), ConflictPolicy::PreferRemote),
        &locals,
        &snapshot,
        &state,
    );
    assert!(matches!(
        plan_del.actions[0],
        SyncAction::DeleteLocal { .. }
    ));
}

#[test]
fn forget_when_both_sides_gone() {
    let snapshot = remote_snapshot(&[], "");
    let mut state = SyncState::default();
    state
        .entries
        .insert("n.pdf".to_string(), entry("u1", DocKind::Pdf, 10, 1, 5));
    let plan = plan(two_way(), &[], &snapshot, &state);
    assert_eq!(
        plan.actions,
        vec![SyncAction::Forget {
            path: "n.pdf".to_string()
        }]
    );
}

// ---- unmapped collisions (adoption) ------------------------------------

#[test]
fn collision_adoption_by_policy() {
    let snapshot = remote_snapshot(&[doc("u1", "n", "", "pdf", 50)], "");
    let locals = vec![local("n.pdf", DocKind::Pdf, 10, 100)]; // local newer

    // Default: conflict.
    let plan_skip = plan(two_way(), &locals, &snapshot, &SyncState::default());
    assert_eq!(conflicts(&plan_skip), ["n.pdf"]);

    // Newest: local wins → adopt the device doc and overwrite it.
    let plan_adopt = plan(
        with_policy(two_way(), ConflictPolicy::Newest),
        &locals,
        &snapshot,
        &SyncState::default(),
    );
    assert_eq!(
        plan_adopt.actions,
        vec![SyncAction::UpdateRemote {
            local: "n.pdf".to_string(),
            kind: DocKind::Pdf,
            uuid: "u1".to_string()
        }]
    );

    // Remote preferred: download over the local file (adopts too).
    let plan_pull = plan(
        with_policy(two_way(), ConflictPolicy::PreferRemote),
        &locals,
        &snapshot,
        &SyncState::default(),
    );
    assert!(matches!(plan_pull.actions[0], SyncAction::Download { .. }));
}

#[test]
fn collision_never_overwrites_handwriting() {
    // Local n.rmdoc vs device notebook "n": local can never win.
    let snapshot = remote_snapshot(&[doc("u1", "n", "", "notebook", 50)], "");
    let locals = vec![local("n.rmdoc", DocKind::Rmdoc, 10, 100)];
    let plan = plan(
        with_policy(two_way(), ConflictPolicy::PreferLocal),
        &locals,
        &snapshot,
        &SyncState::default(),
    );
    assert_eq!(conflicts(&plan), ["n.rmdoc"]);
}

// ---- helpers ----------------------------------------------------------

#[test]
fn prefix_and_target_helpers() {
    assert_eq!(path_prefixes(""), Vec::<String>::new());
    assert_eq!(path_prefixes("a/b/c"), ["a", "a/b", "a/b/c"]);
    assert_eq!(
        split_target("a/b/notes.md"),
        ("a/b".to_string(), "notes".to_string())
    );
    assert_eq!(
        split_target("top.pdf"),
        (String::new(), "top".to_string())
    );
}
