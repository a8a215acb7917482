use libremarkable_utils::action::{Action, Operation};
use libremarkable_utils::reorganize::Moves;
use libremarkable_utils::reply::{
    file_uploaded, files_downloaded, folder_made, item_renamed, items_deleted, items_listed,
    items_moved, restarted, trash_emptied, tree_listed, Reply,
};
use libremarkable_utils::xochitl::{Item, ItemKind};

fn folder(uuid: &str, name: &str, parent: &str) -> Item {
    Item {
        uuid: uuid.to_string(),
        visible_name: name.to_string(),
        parent: parent.to_string(),
        kind: ItemKind::Folder,
        file_type: None,
        created_time: 1,
        last_modified: -2,
        size_bytes: None,
    }
}

fn doc(uuid: &str, name: &str, parent: &str, file_type: Option<&str>) -> Item {
    Item {
        uuid: uuid.to_string(),
        visible_name: name.to_string(),
        parent: parent.to_string(),
        kind: ItemKind::Document,
        file_type: file_type.map(|t| t.to_string()),
        created_time: 3,
        last_modified: 4,
        size_bytes: Some(u64::MAX),
    }
}

fn says(reply: &Reply, notes: &[&str], output: &[&str], modified: bool) {
    assert_eq!(reply.notes, notes);
    assert_eq!(reply.output, output);
    assert_eq!(reply.modified, modified);
}

#[test]
fn single_items_are_told_with_their_uuid() {
    let made = folder("f", "Books", "");
    says(&folder_made(&made, true), &["Created folder: Books/"], &["f"], true);
    says(&folder_made(&made, false), &["Created folder: Books/"], &["f"], false);
    let stored = doc("d", "Algebra", "f", Some("pdf"));
    says(
        &file_uploaded("./a.pdf", &stored),
        &["Uploaded ./a.pdf as 'Algebra' (pdf)"],
        &["d"],
        true,
    );
    let unknown = doc("d", "Algebra", "f", None);
    says(
        &file_uploaded("a.pdf", &unknown),
        &["Uploaded a.pdf as 'Algebra' (?)"],
        &["d"],
        true,
    );
    let renamed = Operation { actions: vec![Action::Finished], item: stored };
    says(&item_renamed(&renamed), &["Renamed to: Algebra"], &[], true);
    let same = Operation { actions: Vec::new(), item: renamed.item };
    says(&item_renamed(&same), &["Renamed to: Algebra"], &[], false);
    says(&restarted(), &["xochitl restarted"], &[], false);
}

#[test]
fn lists_have_a_line_for_each_item() {
    let items = vec![doc("d", "Algebra", "f", Some("pdf")), folder("f", "Books", "")];
    let lines = ["  Algebra (pdf) [d]", "  Books/ [f]"];
    says(
        &items_deleted(&items),
        &["Deleted 2 item(s):", lines[0], lines[1]],
        &[],
        true,
    );
    says(
        &trash_emptied(&items),
        &["Emptied trash: 2 item(s):", lines[0], lines[1]],
        &[],
        true,
    );
    let lines = ["Moved 'Algebra' to f", "Moved 'Books' to (root)"];
    let moves = Moves { actions: vec![Action::Finished], items };
    says(&items_moved(&moves), &lines, &[], true);
    let none = Moves { actions: Vec::new(), items: moves.items };
    says(&items_moved(&none), &lines, &[], false);
    let paths = vec!["a.pdf".to_string(), "b.pdf".to_string()];
    says(&files_downloaded(paths), &["Downloaded to:"], &["a.pdf", "b.pdf"], false);
}

#[test]
fn an_empty_trash_changes_nothing() {
    says(&trash_emptied(&[]), &["Trash is already empty."], &[], false);
    says(&items_deleted(&[]), &["Deleted 0 item(s):"], &[], false);
    let none = Moves { actions: Vec::new(), items: Vec::new() };
    says(&items_moved(&none), &[], &[], false);
}

#[test]
fn listings_are_trees_or_json() {
    let items = vec![doc("d", "Algebra", "f", None), folder("f", "Books", "")];
    let tree = tree_listed(&items, false, true);
    assert!(tree.notes.is_empty() && !tree.modified);
    assert!(tree.output.iter().any(|line| line.contains("Books/")));
    let expected = "[
  {
    \"created_time\": 3,
    \"file_type\": null,
    \"last_modified\": 4,
    \"name\": \"Algebra\",
    \"parent_uuid\": \"f\",
    \"path\": \"/Books/Algebra\",
    \"size_bytes\": 18446744073709551615,
    \"type\": \"document\",
    \"uuid\": \"d\"
  },
  {
    \"created_time\": 1,
    \"file_type\": null,
    \"last_modified\": -2,
    \"name\": \"Books\",
    \"parent_uuid\": \"\",
    \"path\": \"/Books\",
    \"size_bytes\": null,
    \"type\": \"folder\",
    \"uuid\": \"f\"
  }
]";
    says(&items_listed(&items), &[], &[expected], false);
    says(&items_listed(&[]), &[], &["[]"], false);
}
