use libremarkable_utils::error::Error;
use libremarkable_utils::glob::{expand_refs, match_segments, resolve_glob};
use libremarkable_utils::render::render_tree;
use libremarkable_utils::resolve::{
    ensure_no_conflict, path_segments, plan_moves, resolve_folder_ref, resolve_item_ref,
};
use libremarkable_utils::walk::{build_path, depth, descendants, is_descendant};
use libremarkable_utils::xochitl::{Item, ItemKind};

fn folder(uuid: &str, name: &str, parent: &str) -> Item {
    Item {
        uuid: uuid.to_string(),
        visible_name: name.to_string(),
        parent: parent.to_string(),
        kind: ItemKind::Folder,
        file_type: None,
        created_time: 0,
        last_modified: 0,
        size_bytes: None,
    }
}

fn doc(uuid: &str, name: &str, parent: &str, file_type: &str) -> Item {
    Item {
        uuid: uuid.to_string(),
        visible_name: name.to_string(),
        parent: parent.to_string(),
        kind: ItemKind::Document,
        file_type: Some(file_type.to_string()),
        created_time: 0,
        last_modified: 0,
        size_bytes: Some(1024),
    }
}

fn sample() -> Vec<Item> {
    vec![
        folder("b", "Books", ""),
        folder("m", "Math", "b"),
        doc("la", "Linear Algebra", "m", "pdf"),
        doc("ph", "Physics", "b", "epub"),
        folder("n", "Notes", ""),
    ]
}

#[test]
fn resolve_by_path_and_uuid() {
    let items = sample();
    assert_eq!(resolve_item_ref(&items, "Books/Math").unwrap().uuid, "m");
    assert_eq!(
        resolve_item_ref(&items, "/Books/Math/Linear Algebra/")
            .unwrap()
            .uuid,
        "la"
    );
    assert_eq!(
        resolve_item_ref(&items, "ph").unwrap().visible_name,
        "Physics"
    );
}

#[test]
fn resolve_missing_and_root() {
    let items = sample();
    assert!(matches!(
        resolve_item_ref(&items, "Books/Nope"),
        Err(Error::PathNotFound(_))
    ));
    assert!(matches!(
        resolve_item_ref(&items, "/"),
        Err(Error::RootTarget)
    ));
    assert!(matches!(
        resolve_item_ref(&items, ""),
        Err(Error::RootTarget)
    ));
}

#[test]
fn resolve_rejects_ambiguity() {
    let mut items = sample();
    items.push(doc("ph2", "Physics", "b", "pdf"));
    assert!(matches!(
        resolve_item_ref(&items, "Books/Physics"),
        Err(Error::AmbiguousPath { .. })
    ));
}

#[test]
fn folder_ref_root_and_type_check() {
    let items = sample();
    assert_eq!(resolve_folder_ref(&items, "").unwrap(), "");
    assert_eq!(resolve_folder_ref(&items, "/").unwrap(), "");
    assert_eq!(resolve_folder_ref(&items, "(root)").unwrap(), "");
    assert_eq!(resolve_folder_ref(&items, "Books/Math").unwrap(), "m");
    assert!(matches!(
        resolve_folder_ref(&items, "Books/Physics"),
        Err(Error::NotAFolder(_))
    ));
}

#[test]
fn conflict_detection() {
    let items = sample();
    assert!(ensure_no_conflict(&items, "b", "Chemistry", None).is_ok());
    assert!(matches!(
        ensure_no_conflict(&items, "b", "Physics", None),
        Err(Error::NameConflict { .. })
    ));
    // Renaming an item to its own name is not a conflict.
    assert!(ensure_no_conflict(&items, "b", "Physics", Some("ph")).is_ok());
}

#[test]
fn descendants_and_depth() {
    let items = sample();
    let mut uuids: Vec<&str> = descendants(&items, "b")
        .iter()
        .map(|item| item.uuid.as_str())
        .collect();
    uuids.sort_unstable();
    assert_eq!(uuids, ["la", "m", "ph"]);
    let la = resolve_item_ref(&items, "la").unwrap();
    assert_eq!(depth(&items, la), 2);
    assert!(is_descendant(&items, "la", "b"));
    assert!(is_descendant(&items, "b", "b"));
    assert!(!is_descendant(&items, "n", "b"));
}

#[test]
fn logical_paths() {
    let items = sample();
    let la = resolve_item_ref(&items, "la").unwrap();
    assert_eq!(build_path(&items, la), "/Books/Math/Linear Algebra");
}

#[test]
fn tree_rendering() {
    let items = sample();
    let expected = vec![
        "(root)",
        "├─ Books/",
        "│  ├─ Math/",
        "│  │  └─ Linear Algebra (pdf)",
        "│  └─ Physics (epub)",
        "└─ Notes/",
    ];
    assert_eq!(render_tree(&items, false, false), expected);
}

#[test]
fn tree_orphans() {
    let mut items = sample();
    items.push(doc("tr", "Old Notebook", "trash", "pdf"));
    let lines = render_tree(&items, false, false);
    assert!(lines.contains(&"Orphan items:".to_string()));
    assert!(lines.contains(&"└─ Old Notebook (pdf)".to_string()));
}

// ---- globs -------------------------------------------------------------

fn glob(pattern: &str, path: &str) -> bool {
    let pattern_segments = path_segments(pattern);
    let segments = path_segments(path);
    match_segments(&pattern_segments, &segments)
}

#[test]
fn glob_matching_rules() {
    // `*` and `?` within a segment.
    assert!(glob("math-*", "math-books-vol-1"));
    assert!(glob("*.pdf", "a.pdf"));
    assert!(glob("vol-?", "vol-1"));
    assert!(!glob("vol-?", "vol-10"));
    assert!(glob("*", "anything"));

    // `*` never crosses `/`.
    assert!(!glob("*", "Books/Math"));
    assert!(glob("Books/*", "Books/Math"));
    assert!(!glob("Books/*", "Books/Math/Deep"));

    // `**` crosses segment boundaries. Trailing `**` = everything
    // *inside* the folder, not the folder itself (gitignore rule);
    // mid-pattern `**` matches zero or more segments.
    assert!(glob("Books/**", "Books/Math"));
    assert!(glob("Books/**", "Books/Math/Deep"));
    assert!(!glob("Books/**", "Books"));
    assert!(glob("**/Deep", "Books/Math/Deep"));
    assert!(glob("Books/**/Deep", "Books/Deep"));

    // Character classes: sets, ranges, negation, literal `]`.
    assert!(glob("vol-[12]", "vol-1"));
    assert!(!glob("vol-[12]", "vol-3"));
    assert!(glob("vol-[0-9]", "vol-7"));
    assert!(glob("vol-[!0-9]", "vol-x"));
    assert!(!glob("vol-[!0-9]", "vol-7"));
    assert!(glob("a[]]b", "a]b"));

    // Unterminated `[` is a literal (shell rule).
    assert!(glob("a[b", "a[b"));

    // Case-sensitive.
    assert!(!glob("books/*", "Books/Math"));
}

#[test]
fn glob_resolution_scopes_and_errors() {
    let items = sample();
    let names = |matched: Vec<&Item>| -> Vec<String> {
        matched.iter().map(|i| i.visible_name.clone()).collect()
    };

    // Documents and folders both match.
    assert_eq!(
        names(resolve_glob(&items, "Books/*").unwrap()),
        ["Math", "Physics"]
    );
    // `**` recurses.
    assert_eq!(
        names(resolve_glob(&items, "Books/**").unwrap()),
        ["Math", "Linear Algebra", "Physics"]
    );
    // Leading slash is fine.
    assert_eq!(names(resolve_glob(&items, "/N*").unwrap()), ["Notes"]);
    // No matches: error, never an empty no-op.
    assert!(matches!(
        resolve_glob(&items, "Books/z*"),
        Err(Error::PathNotFound(_))
    ));
    // Bare `/` is not a target.
    assert!(matches!(resolve_glob(&items, "/"), Err(Error::RootTarget)));

    // Trash and orphan items never match.
    let mut with_trash = sample();
    with_trash.push(doc("t", "Trashed", "trash", "pdf"));
    assert!(matches!(
        resolve_glob(&with_trash, "Trash*"),
        Err(Error::PathNotFound(_))
    ));

    // Duplicate-named siblings both match a pattern (a pattern
    // means "everything that matches", unlike an exact path).
    let mut dupes = sample();
    dupes.push(doc("ph2", "Physics", "b", "pdf"));
    assert_eq!(resolve_glob(&dupes, "Books/Phys*").unwrap().len(), 2);
}

#[test]
fn expand_refs_prefers_exact_matches() {
    // An item literally named with a metacharacter is addressed
    // exactly, not treated as a pattern.
    let mut items = sample();
    items.push(doc("star", "vol-*", "b", "pdf"));
    items.push(doc("v1", "vol-1", "b", "pdf"));
    assert_eq!(
        expand_refs(&items, &["Books/vol-*"]).unwrap(),
        ["star".to_string()]
    );

    // Without an exact match the pattern expands.
    let items = {
        let mut items = sample();
        items.push(doc("v1", "vol-1", "b", "pdf"));
        items.push(doc("v2", "vol-2", "b", "pdf"));
        items
    };
    assert_eq!(
        expand_refs(&items, &["Books/vol-*"]).unwrap(),
        ["v1".to_string(), "v2".to_string()]
    );

    // Mixed exact and glob refs; non-glob misses stay hard errors.
    assert_eq!(
        expand_refs(&items, &["ph", "Books/vol-*"]).unwrap().len(),
        3
    );
    assert!(matches!(
        expand_refs(&items, &["Books/Nope"]),
        Err(Error::PathNotFound(_))
    ));
}

#[test]
fn plan_moves_validates_everything_up_front() {
    let items = sample();

    // Plain move.
    let plan = plan_moves(&items, &["la".to_string()], "b").unwrap();
    assert_eq!(plan[0].uuid, "la");

    // Already in place: drops out.
    assert!(
        plan_moves(&items, &["la".to_string()], "m")
            .unwrap()
            .is_empty()
    );

    // Folder cycle.
    assert!(matches!(
        plan_moves(&items, &["b".to_string()], "m"),
        Err(Error::MoveIntoDescendant)
    ));

    // Name conflict with an existing destination child.
    let mut items2 = sample();
    items2.push(doc("ph2", "Physics", "n", "pdf"));
    assert!(matches!(
        plan_moves(&items2, &["ph2".to_string()], "b"),
        Err(Error::NameConflict { .. })
    ));

    // Name conflict *within* the moved set.
    let mut items3 = sample();
    items3.push(doc("x1", "Same", "b", "pdf"));
    items3.push(doc("x2", "Same", "m", "pdf"));
    assert!(matches!(
        plan_moves(&items3, &["x1".to_string(), "x2".to_string()], "n"),
        Err(Error::NameConflict { .. })
    ));
}
