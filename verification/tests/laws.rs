//! One value for each of the promises about trees, paths, texts and numbers.
use libremarkable_utils::cli::{
    afterwards, sync_root, writes_a, writes_b, Afterwards, SyncRoot,
};
use libremarkable_utils::error::Error;
use libremarkable_utils::glob::{expand_refs, is_expandable, is_glob, resolve_glob, segment_match};
use libremarkable_utils::listing::{build_items, parse_listing};
use libremarkable_utils::number::{parse_i64, parse_u64, show_i64, show_u64};
use libremarkable_utils::pairing::{
    build_side, pair_sides, said_to_be_tablet, state_key, Pairing, RemoteKind, Side,
};
use libremarkable_utils::pathmap::PathMap;
use libremarkable_utils::plan::{decide, winner, Decision, Winner};
use libremarkable_utils::render::{is_renderable, render_tree};
use libremarkable_utils::resolve::{
    display_parent, find_child, find_item, plan_moves, resolve_folder_ref, resolve_item_ref,
};
use libremarkable_utils::sections::{find_section, split_sections};
use libremarkable_utils::snapshot::{kind_by_name, local_step, remote_snapshot, LocalStep};
use libremarkable_utils::sync::{
    join_rel, parse_endpoint, split_path, ConflictPolicy, DocKind, LocalEntry, Mode, RemoteType, SyncAction,
    SyncOptions, SyncState,
};
use libremarkable_utils::tree::children_map;
use libremarkable_utils::walk::{
    build_path, descendants, does_walk_end, is_descendant, is_usable_name, Walk,
};
use libremarkable_utils::xochitl::{Item, ItemKind};

fn folder(uuid: &str, name: &str, parent: &str) -> Item {
    Item {
        uuid: uuid.to_string(),
        visible_name: name.to_string(),
        parent: parent.to_string(),
        kind: ItemKind::Folder,
        file_type: None,
        created_time: 0,
        last_modified: 0,
        size_bytes: None,
    }
}

fn doc(uuid: &str, name: &str, parent: &str) -> Item {
    Item {
        uuid: uuid.to_string(),
        visible_name: name.to_string(),
        parent: parent.to_string(),
        kind: ItemKind::Document,
        file_type: Some("pdf".to_string()),
        created_time: 0,
        last_modified: 0,
        size_bytes: None,
    }
}

fn sample() -> Vec<Item> {
    vec![
        folder("b", "Books", ""),
        folder("m", "Math", "b"),
        doc("la", "Linear Algebra", "m"),
        doc("ph", "Physics", "b"),
        folder("n", "Notes", ""),
    ]
}

fn chars(s: &str) -> Vec<char> {
    s.chars().collect()
}

#[test]
fn paths_lead_back_to_their_items() {
    let items = sample();
    for item in &items {
        let path = build_path(&items, item);
        assert_eq!(resolve_item_ref(&items, &path).unwrap().uuid, item.uuid);
        assert_eq!(resolve_item_ref(&items, &item.uuid).unwrap().uuid, item.uuid);
    }
    assert_eq!(build_path(&items, &items[2]), "/Books/Math/Linear Algebra");
}

#[test]
fn uuids_win_over_names() {
    let mut items = sample();
    items.push(doc("x", "la", ""));
    assert_eq!(resolve_item_ref(&items, "la").unwrap().uuid, "la");
    assert_eq!(resolve_item_ref(&items, "/la").unwrap().uuid, "x");
    assert_eq!(find_item(&items, "x").unwrap().visible_name, "la");
    assert!(find_item(&items, "y").is_none());
}

#[test]
fn folders_are_told_from_documents() {
    let items = sample();
    assert_eq!(resolve_folder_ref(&items, "").unwrap(), "");
    assert!(matches!(resolve_folder_ref(&items, "/Books/Physics"), Err(Error::NotAFolder(_))));
    assert_eq!(find_child(&items, "b", "Math", true).unwrap().unwrap().uuid, "m");
    assert!(find_child(&items, "b", "Physics", true).unwrap().is_none());
    assert_eq!(find_child(&items, "b", "Physics", false).unwrap().unwrap().uuid, "ph");
    let twins = vec![doc("1", "Same", ""), doc("2", "Same", "")];
    assert!(matches!(
        find_child(&twins, "", "Same", false),
        Err(Error::AmbiguousPath { .. })
    ));
    assert_eq!(display_parent(""), "(root)");
    assert_eq!(display_parent("b"), "b");
}

#[test]
fn children_are_grouped_and_sorted() {
    let items = vec![doc("2", "beta", ""), doc("1", "Alpha", ""), folder("3", "gamma", "")];
    let map = children_map(&items, false);
    let names: Vec<&str> =
        map.get("").unwrap().iter().map(|i| i.visible_name.as_str()).collect();
    assert_eq!(names, vec!["gamma", "Alpha", "beta"]);
    let only = children_map(&items, true);
    assert_eq!(only.get("").unwrap().len(), 1);
    assert!(map.get("1").is_none());
}

#[test]
fn descendants_are_the_whole_subtree() {
    let items = sample();
    let mut below: Vec<&str> =
        descendants(&items, "b").iter().map(|i| i.uuid.as_str()).collect();
    below.sort();
    assert_eq!(below, vec!["la", "m", "ph"]);
    assert!(descendants(&items, "n").is_empty());
    for parent in &items {
        let below: Vec<&str> =
            descendants(&items, &parent.uuid).iter().map(|i| i.uuid.as_str()).collect();
        for (i, uuid) in below.iter().enumerate() {
            assert!(!below[..i].contains(uuid));
            let above = &find_item(&items, uuid).unwrap().parent;
            assert!(*above == parent.uuid || below[..i].contains(&above.as_str()));
        }
        for item in &items {
            let inside = item.uuid != parent.uuid && is_descendant(&items, &item.uuid, &parent.uuid);
            assert_eq!(below.contains(&item.uuid.as_str()), inside);
        }
    }
}

#[test]
fn cycles_are_noticed() {
    let looped = vec![folder("a", "A", "c"), folder("c", "C", "a"), doc("d", "D", "a")];
    assert!(!does_walk_end(&looped, false, Walk::Every, "a"));
    assert!(does_walk_end(&looped, false, Walk::Every, ""));
    assert!(does_walk_end(&sample(), false, Walk::Every, ""));
    assert!(is_renderable(&sample(), false));
    assert!(is_expandable(&sample(), &["/Books/*"]));
}

#[test]
fn rendering_shows_everything() {
    let mut items = sample();
    items.push(doc("lost", "Lost", "gone"));
    let lines = render_tree(&items, true, false);
    for item in &items {
        assert_eq!(lines.iter().filter(|l| l.contains(&item.visible_name)).count(), 1);
    }
    assert!(lines.iter().any(|l| l.contains("[lost]")));
}

#[test]
fn safe_moves_keep_the_tree_a_tree() {
    let items = sample();
    let ok = plan_moves(&items, &["la".to_string()], "n").unwrap();
    assert_eq!(ok.len(), 1);
    assert!(matches!(plan_moves(&items, &["b".to_string()], "b"), Err(Error::MoveIntoSelf)));
    assert!(matches!(
        plan_moves(&items, &["b".to_string()], "m"),
        Err(Error::MoveIntoDescendant)
    ));
    let twins = vec![doc("1", "Same", ""), doc("2", "Same", "n"), folder("n", "Notes", "")];
    assert!(matches!(
        plan_moves(&twins, &["1".to_string()], "n"),
        Err(Error::NameConflict { .. })
    ));
}

#[test]
fn exact_references_win_over_patterns() {
    let mut items = sample();
    items.push(doc("star", "Phys*", "b"));
    assert!(is_glob("a?c") && is_glob("*") && !is_glob("plain"));
    assert_eq!(expand_refs(&items, &["/Books/Phys*"]).unwrap(), vec!["star"]);
    let found = resolve_glob(&items, "/Books/Phys*").unwrap();
    let uuids: Vec<&str> = found.iter().map(|i| i.uuid.as_str()).collect();
    assert_eq!(uuids, vec!["star", "ph"]);
    assert!(matches!(resolve_glob(&items, "/Nothing/*"), Err(Error::PathNotFound(_))));
    assert_eq!(
        expand_refs(&items, &["ph", "/Books/P*"]).unwrap(),
        vec!["ph", "star", "ph"]
    );
}

#[test]
fn segments_match_by_wildcards() {
    assert!(segment_match(&chars("a*c"), &chars("abbc")));
    assert!(segment_match(&chars("a?c"), &chars("abc")));
    assert!(!segment_match(&chars("a?c"), &chars("ac")));
    assert!(segment_match(&chars("*"), &chars("")));
}

#[test]
fn trailing_stars_leave_the_folder_alone() {
    let items = sample();
    let uuids = |pattern: &str| -> Vec<String> {
        resolve_glob(&items, pattern).unwrap().iter().map(|i| i.uuid.clone()).collect()
    };
    let mut inside = uuids("/Books/**");
    inside.sort();
    assert_eq!(inside, vec!["la", "m", "ph"]);
    assert_eq!(uuids("/B*/M*/**"), vec!["la"]);
    assert_eq!(uuids("/**/M*/**"), vec!["la"]);
    assert!(segment_match(&chars("Books"), &chars("Books")));
    assert!(!segment_match(&chars("Books"), &chars("books")));
}

#[test]
fn snapshots_hold_usable_items_only() {
    let items = vec![
        folder("f", "Sub", ""),
        doc("ok", "Fine", "f"),
        doc("bad", "a/b", "f"),
        doc("dup", "Twin", ""),
        doc("dup2", "Twin", ""),
    ];
    let snapshot = remote_snapshot(&items, "");
    assert_eq!(snapshot.docs.len(), 1);
    assert_eq!(snapshot.docs[0].local_rel_path(), "Sub/Fine.pdf");
    assert_eq!(snapshot.folders.get("Sub").unwrap(), "f");
    assert_eq!(snapshot.folders.get("").unwrap(), "");
    assert_eq!(snapshot.skips.len(), 3);
    assert!(snapshot.skips.iter().all(|s| matches!(s, SyncAction::Skip { .. })));
    assert!(is_usable_name("Fine") && !is_usable_name("a/b") && !is_usable_name(""));
}

#[test]
fn strays_are_left_out_with_a_note() {
    let items = vec![
        folder("f", "Sub", ""),
        doc("ok", "Fine", "f"),
        doc("gone", "Old", "trash"),
        folder("bin", "Drafts", "trash"),
        doc("deep", "Draft", "bin"),
        doc("lost", "Orphan", "nowhere"),
    ];
    let notes = |root: &str| -> Vec<(String, String)> {
        remote_snapshot(&items, root)
            .skips
            .into_iter()
            .map(|skip| match skip {
                SyncAction::Skip { path, reason } => (path, reason),
                other => panic!("expected a skip, got {other:?}"),
            })
            .collect()
    };
    let expected: Vec<(String, String)> = [
        ("Old", "in the trash"),
        ("Drafts", "in the trash"),
        ("Draft", "in the trash"),
        ("Orphan", "parent folder is missing on device"),
    ]
    .iter()
    .map(|(path, reason)| (path.to_string(), reason.to_string()))
    .collect();
    assert_eq!(notes(""), expected);
    assert_eq!(notes("f"), expected);
    assert_eq!(remote_snapshot(&items, "").docs.len(), 1);
}

#[test]
fn directory_entries_are_sorted_out() {
    assert!(matches!(local_step("", ".git", true, false), LocalStep::Pass));
    assert!(matches!(local_step("", "fifo", false, false), LocalStep::Pass));
    match local_step("Sub", "Deep", true, false) {
        LocalStep::Enter(path) => assert_eq!(path, "Sub/Deep"),
        _ => panic!("a directory is entered"),
    }
    match local_step("Sub", "a.PDF", false, true) {
        LocalStep::Take(path, kind) => {
            assert_eq!(path, "Sub/a.PDF");
            assert_eq!(kind, DocKind::Pdf);
        }
        _ => panic!("a document is taken"),
    }
    assert!(matches!(local_step("", "a.zip", false, true), LocalStep::Ignore));
}

#[test]
fn kinds_go_by_extension() {
    assert_eq!(kind_by_name("a.pdf"), Some(DocKind::Pdf));
    assert_eq!(kind_by_name("a.EPUB"), Some(DocKind::Epub));
    assert_eq!(kind_by_name("a.md"), Some(DocKind::Markdown));
    assert_eq!(kind_by_name("a.txt"), Some(DocKind::Text));
    assert_eq!(kind_by_name("a.rmdoc"), Some(DocKind::Rmdoc));
    assert_eq!(kind_by_name("pdf"), None);
    assert_eq!(kind_by_name(".pdf"), None);
    assert_eq!(DocKind::from_extension("pdf"), Some(DocKind::Pdf));
    assert_eq!(DocKind::Text.device_file_type(), "epub");
    assert_eq!(DocKind::Pdf.device_file_type(), "pdf");
    assert_eq!(RemoteType::Notebook.local_extension(), "rmdoc");
    assert_eq!(RemoteType::Epub.pulled_kind(), DocKind::Epub);
}

#[test]
fn paths_split_where_they_were_joined() {
    assert_eq!(join_rel("", "a"), "a");
    assert_eq!(join_rel("x/y", "a"), "x/y/a");
    assert_eq!(split_path("x/y/a"), ("x/y".to_string(), "a".to_string()));
    assert_eq!(split_path("a"), (String::new(), "a".to_string()));
}

#[test]
fn numbers_survive_being_shown() {
    for n in [0u64, 7, 10, 1024, u64::MAX] {
        assert_eq!(show_u64(n), n.to_string());
        assert_eq!(parse_u64(&chars(&show_u64(n)), u64::MAX), Some(n));
    }
    for n in [0i64, -1, i64::MAX, i64::MIN] {
        assert_eq!(show_i64(n), n.to_string());
        assert_eq!(parse_i64(&chars(&show_i64(n))), Some(n));
    }
    for text in ["", "+", "-", "1x", " 1", "+5", "-0", "18446744073709551616", "007"] {
        assert_eq!(parse_u64(&chars(text), u64::MAX), text.parse::<u64>().ok());
        assert_eq!(parse_i64(&chars(text)), text.parse::<i64>().ok());
    }
    assert_eq!(parse_u64(&chars("101"), 100), None);
}

#[test]
fn maps_keep_one_value_for_each_key() {
    let mut map: PathMap<u64> = PathMap::new();
    map.insert("b".to_string(), 1);
    map.insert("a".to_string(), 2);
    map.insert("b".to_string(), 3);
    assert_eq!(map.len(), 2);
    assert_eq!((map.key_at(0), *map.value_at(0)), ("a", 2));
    assert_eq!((map.key_at(1), *map.value_at(1)), ("b", 3));
    assert_eq!(map.get("b"), Some(&3));
    map.remove("b");
    map.remove("c");
    assert!(!map.contains_key("b"));
    assert!(map.contains_key("a"));
    let sorted = PathMap::from_sorted(vec![("a".to_string(), 1u64), ("z".to_string(), 2)]);
    assert_eq!(sorted.get("z"), Some(&2));
}

#[test]
fn sections_start_at_their_markers() {
    let found = split_sections("==M", "noise\n==M one\na\nb\n==M two\n==M one\nc\n");
    let text = |name: &str| {
        find_section(&found, name).map(|body| body.iter().collect::<String>())
    };
    assert_eq!(text("one").unwrap().trim_end(), "a\nb");
    assert_eq!(text("two").unwrap(), "");
    assert!(text("three").is_none());
}

#[test]
fn listed_items_are_distinct() {
    let output = "==M a.metadata\n{\"visibleName\":\"A\",\"type\":\"DocumentType\"}\n\
                  ==M b.metadata\n{\"visibleName\":\"B\",\"type\":\"CollectionType\"}\n\
                  ==M a.metadata\n{\"visibleName\":\"A2\",\"type\":\"DocumentType\"}\n";
    let items = build_items(&parse_listing("==M", output));
    let uuids: Vec<&str> = items.iter().map(|i| i.uuid.as_str()).collect();
    assert_eq!(uuids, vec!["a", "b"]);
    assert!(items[0].is_document() && !items[1].is_document());
    assert_eq!(items[0].visible_name, "A2");
}

#[test]
fn roots_are_found_or_made() {
    let items = sample();
    assert!(writes_b(Mode::Push) && writes_b(Mode::TwoWay) && !writes_b(Mode::Pull));
    assert!(writes_a(Mode::Pull) && writes_a(Mode::TwoWay) && !writes_a(Mode::Push));
    assert!(matches!(sync_root(&items, "/Books", false), Ok(SyncRoot::Found(u)) if u == "b"));
    assert!(matches!(sync_root(&items, "/New", true), Ok(SyncRoot::Missing)));
    assert!(matches!(sync_root(&items, "/New", false), Err(Error::PathNotFound(_))));
    assert!(matches!(sync_root(&items, "/Books/Physics", true), Err(Error::NotAFolder(_))));
}

fn side(arg: &str, is_tablet: bool) -> Side {
    build_side(parse_endpoint(arg), None, is_tablet)
}

#[test]
fn sides_are_paired_whatever_their_order() {
    let books = side("./books", false);
    let tablet = side("remarkable:/Books", true);
    let backup = side("rm-backup:/Books/", true);
    let server = side("user@server:/docs/", false);
    assert_eq!(pair_sides(&books, &tablet), Pairing::Device { a_is_src: true });
    assert_eq!(pair_sides(&tablet, &server), Pairing::Device { a_is_src: false });
    assert_eq!(pair_sides(&books, &server), Pairing::Files { a_is_src: true });
    assert_eq!(pair_sides(&server, &books), Pairing::Files { a_is_src: false });
    assert_eq!(pair_sides(&server, &server), Pairing::Files { a_is_src: true });
    assert_eq!(pair_sides(&tablet, &backup), Pairing::Documents { a_is_src: true });
    assert_eq!(pair_sides(&backup, &tablet), Pairing::Documents { a_is_src: false });
    assert_eq!(pair_sides(&tablet, &tablet), Pairing::Documents { a_is_src: true });
    let key = |a: &Side, b: &Side| -> String {
        let (first, second) = state_key(a, b);
        format!("{first} {second}")
    };
    assert_eq!(key(&books, &tablet), "./books remarkable:/Books");
    assert_eq!(key(&tablet, &books), "./books remarkable:/Books");
    assert_eq!(key(&server, &backup), "user@server:/docs rm-backup:/Books");
    assert_eq!(key(&tablet, &backup), "remarkable:/Books rm-backup:/Books");
    assert_eq!(key(&backup, &tablet), "remarkable:/Books rm-backup:/Books");
    assert_eq!(key(&books, &server), "./books user@server:/docs");
    assert_eq!(key(&server, &books), "./books user@server:/docs");
    match server {
        Side::Files { identity, .. } => assert_eq!(identity, "user@server:/docs"),
        Side::Tablet { .. } => panic!("a host with plain files"),
    }
    match build_side(parse_endpoint("books"), Some("/home/me/books".to_string()), false) {
        Side::Files {
            path,
            is_local,
            identity,
        } => {
            assert_eq!(path, "books");
            assert!(is_local);
            assert_eq!(identity, "/home/me/books");
        }
        Side::Tablet { .. } => panic!("a local directory"),
    }
    assert_eq!(said_to_be_tablet(Some(RemoteKind::Remarkable)), Some(true));
    assert_eq!(said_to_be_tablet(Some(RemoteKind::Fs)), Some(false));
    assert_eq!(said_to_be_tablet(None), None);
}

#[test]
fn changes_ask_for_a_restart() {
    assert!(matches!(afterwards(false, false), Afterwards::Nothing));
    assert!(matches!(afterwards(false, true), Afterwards::Nothing));
    assert!(matches!(afterwards(true, true), Afterwards::Note));
    assert!(matches!(afterwards(true, false), Afterwards::Restart));
}

#[test]
fn winners_go_by_policy() {
    assert_eq!(winner(ConflictPolicy::Skip, 1, 2), None);
    assert_eq!(winner(ConflictPolicy::PreferLocal, 1, 2), Some(Winner::Local));
    assert_eq!(winner(ConflictPolicy::PreferRemote, 2, 1), Some(Winner::Remote));
    assert_eq!(winner(ConflictPolicy::Newest, 2, 1), Some(Winner::Local));
    assert_eq!(winner(ConflictPolicy::Newest, 1, 2), Some(Winner::Remote));
}

#[test]
fn absent_paths_decide_nothing() {
    let options = SyncOptions {
        mode: Mode::TwoWay,
        delete: false,
        conflict: ConflictPolicy::Skip,
    };
    assert_eq!(decide(options, None, None, None), Decision::Nothing);
    let entry = LocalEntry {
        rel_path: "a.pdf".to_string(),
        kind: DocKind::Pdf,
        size: 1,
        mtime_ms: 1,
    };
    assert_eq!(decide(options, None, Some(&entry), None), Decision::Upload);
    assert_eq!(SyncState::fresh().version, 1);
    assert_eq!(SyncState::default().version, 0);
}

#[test]
fn errors_say_what_happened() {
    let s = |text: &str| text.to_string();
    let cases = vec![
        (
            Error::Remote { status: 255, stderr: s("gone") },
            "remote command exited with status 255: gone",
        ),
        (Error::Io(s("broken pipe")), "broken pipe"),
        (
            Error::Json { path: s("a.metadata"), message: s("eof") },
            "invalid JSON in a.metadata: eof",
        ),
        (Error::InvalidMetadata(s("u")), "invalid metadata for u: not a JSON object"),
        (Error::PathNotFound(s("/x")), "path not found: /x"),
        (
            Error::AmbiguousPath { segment: s("b"), path: s("/a/b") },
            "ambiguous path segment 'b' in '/a/b'",
        ),
        (
            Error::NameConflict { name: s("n"), parent: s("(root)") },
            "an item named 'n' already exists in '(root)'",
        ),
        (Error::NotAFolder(s("/d")), "not a folder: /d"),
        (Error::NotADocument(s("/f")), "not a document: /f"),
        (Error::FolderNotEmpty(s("f")), "folder is not empty (use recursive delete)"),
        (
            Error::UnsupportedFileType(s("zip")),
            "unsupported file type 'zip': only .pdf and .epub are supported",
        ),
        (Error::RootTarget, "root is not a valid target for this operation"),
        (Error::EmptyPath, "folder path is empty"),
        (Error::InvalidName(s("empty")), "invalid name: empty"),
        (Error::FileNotFound(s("a.pdf")), "file not found: a.pdf"),
        (Error::OutputNotADirectory(s("out")), "not a directory: out"),
        (Error::MoveIntoSelf, "cannot move an item into itself"),
        (Error::MoveIntoDescendant, "cannot move a folder into its own descendant"),
        (Error::XochitlRestart(s("dead")), "failed to restart xochitl: dead"),
        (Error::Bundle(s("no metadata")), "invalid bundle: no metadata"),
        (Error::Epub(s("full")), "cannot build EPUB: full"),
    ];
    for (error, text) in cases {
        assert_eq!(error.message(), text);
    }
}
