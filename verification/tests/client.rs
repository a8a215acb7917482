use libremarkable_utils::action::{Action, Operation};
use libremarkable_utils::cli::{
    deleted_line, item_suffix, writes_a, writes_b, map_conflict, moved_line,
    password_from_file, sync_options, sync_summary, tablet_identity, ConflictArg,
};
use libremarkable_utils::client::Client;
use libremarkable_utils::deletion::{
    deletion_plan, is_deletable, is_deletable_expanded, trashed_uuids,
};
use libremarkable_utils::error::Error;
use libremarkable_utils::execute::Outcome;
use libremarkable_utils::ident::{marker_from, new_control_dir, new_marker, new_uuid};
use libremarkable_utils::json::Json;
use libremarkable_utils::listing::{build_items, list_script, parse_listing};
use libremarkable_utils::mkdir::{folder_parts, Mkdir, MkdirStep};
use libremarkable_utils::progress::NoProgress;
use libremarkable_utils::reorganize::check_name;
use libremarkable_utils::ssh::{SshOptions, SshSession};
use libremarkable_utils::sync::{ConflictPolicy, Mode};
use libremarkable_utils::transfer::{
    bundle_name, default_name, download_filename, parse_payload_hashes, place_new,
    resolve_destination, Destination, Source, UploadKind,
};
use libremarkable_utils::xochitl::{Item, ItemKind, TRASH_PARENT};

fn item(uuid: &str, name: &str, parent: &str, kind: ItemKind) -> Item {
    Item {
        uuid: uuid.to_string(),
        visible_name: name.to_string(),
        parent: parent.to_string(),
        kind,
        file_type: None,
        created_time: 0,
        last_modified: 0,
        size_bytes: None,
    }
}

fn sample_tree() -> Vec<Item> {
    vec![
        item("b", "Books", "", ItemKind::Folder),
        item("m", "Math", "b", ItemKind::Folder),
        item("la", "Linear Algebra", "m", ItemKind::Document),
        item("ph", "Physics", "b", ItemKind::Document),
        item("n", "Notes", "", ItemKind::Document),
    ]
}

#[test]
fn payload_hash_parsing() {
    let output = "\
abc123  11111111-aaaa-bbbb-cccc-000000000001.pdf
def456  11111111-aaaa-bbbb-cccc-000000000002.epub
garbage line
";
    let hashes = parse_payload_hashes(output);
    assert_eq!(
        hashes.get("11111111-aaaa-bbbb-cccc-000000000001"),
        Some(&"abc123".to_string())
    );
    assert_eq!(
        hashes.get("11111111-aaaa-bbbb-cccc-000000000002"),
        Some(&"def456".to_string())
    );
    assert_eq!(hashes.len(), 2);
}

#[test]
fn deletion_plan_orders_children_first_and_dedupes_overlap() {
    let items = sample_tree();
    // "Books" contains "Books/Math": listing both must not
    // schedule the subtree twice.
    let order = deletion_plan(&items, &["Books", "Books/Math", "Notes"], true).unwrap();
    let uuids: Vec<&str> = order.iter().map(|i| i.uuid.as_str()).collect();
    // Children before parents; every uuid exactly once.
    let position = |u: &str| uuids.iter().position(|x| *x == u).unwrap();
    assert!(position("la") < position("m"));
    assert!(position("m") < position("b"));
    assert!(position("ph") < position("b"));
    assert_eq!(uuids.len(), 5);
}

#[test]
fn deletion_plan_covers_trashed_subtrees() {
    // A trashed folder still parents its children; emptying the
    // trash must delete them too, children first.
    let items = vec![
        item("tf", "Old Folder", TRASH_PARENT, ItemKind::Folder),
        item("tc", "Inside", "tf", ItemKind::Document),
        item("td", "Old Doc", TRASH_PARENT, ItemKind::Document),
        item("keep", "Keep", "", ItemKind::Document),
    ];
    let trashed: Vec<&str> = items
        .iter()
        .filter(|i| i.parent == TRASH_PARENT)
        .map(|i| i.uuid.as_str())
        .collect();
    let order = deletion_plan(&items, &trashed, true).unwrap();
    let uuids: Vec<&str> = order.iter().map(|i| i.uuid.as_str()).collect();
    let position = |u: &str| uuids.iter().position(|x| *x == u).unwrap();
    assert!(position("tc") < position("tf"));
    assert_eq!(uuids.len(), 3);
    assert!(!uuids.contains(&"keep"));
}

#[test]
fn deletion_plan_fails_fast_on_any_bad_target() {
    let items = sample_tree();
    // A typo in one target aborts the whole plan.
    assert!(matches!(
        deletion_plan(&items, &["Notes", "Boks"], true),
        Err(Error::PathNotFound(_))
    ));
}

#[test]
fn deletion_plan_names_the_non_empty_folder() {
    let items = sample_tree();
    match deletion_plan(&items, &["Notes", "Books"], false) {
        Err(Error::FolderNotEmpty(name)) => assert_eq!(name, "Books"),
        other => panic!("expected FolderNotEmpty, got {other:?}"),
    }
}

#[test]
fn listing_parse_and_build() {
    let marker = "===RMU:test===";
    let output = "\n\
===RMU:test=== aaa.metadata\n\
{\"type\": \"DocumentType\", \"visibleName\": \"Doc\", \"parent\": \"\", \"lastModified\": \"5\"}\n\
\n\
===RMU:test=== aaa.content\n\
{\"fileType\": \"pdf\"}\n\
\n\
===RMU:test=== bbb.metadata\n\
{\"type\": \"CollectionType\", \"visibleName\": \"Dir\", \"parent\": \"\"}\n\
\n\
===RMU:test=== ccc.metadata\n\
not json at all\n\
\n\
===RMU:test=== __sizes__\n\
2048 aaa.pdf\n";

    let listing = parse_listing(marker, output);
    assert_eq!(listing.metadata.len(), 3);
    assert_eq!(listing.content.len(), 1);
    assert_eq!(listing.sizes.get("aaa.pdf"), Some(&2048));

    let items = build_items(&listing);
    assert_eq!(items.len(), 2);
    let doc = items.iter().find(|item| item.uuid == "aaa").unwrap();
    assert_eq!(doc.visible_name, "Doc");
    assert_eq!(doc.file_type.as_deref(), Some("pdf"));
    assert_eq!(doc.size_bytes, Some(2048));
    assert_eq!(doc.last_modified, 5);
    let dir = items.iter().find(|item| item.uuid == "bbb").unwrap();
    assert!(dir.is_folder());
}

#[test]
fn listing_ignores_noise_outside_sections() {
    let marker = "===M===";
    let output =
        "motd noise\n===M=== x.metadata\n{\"type\":\"CollectionType\",\"visibleName\":\"A\"}\n";
    let listing = parse_listing(marker, output);
    assert_eq!(listing.metadata.len(), 1);
    assert!(listing.metadata.get("x").unwrap().contains("CollectionType"));
}

fn client() -> Client<NoProgress> {
    let session = SshSession::new(SshOptions::default(), None, None);
    Client::new(session, "/data//")
}

/// The actions of an operation, one line each.
fn shown(actions: &[Action]) -> Vec<String> {
    actions
        .iter()
        .map(|action| match action {
            Action::Step(message) => format!("step {message}"),
            Action::Run(command) => format!("run {command}"),
            Action::Write { command, text } => format!("write {command} <- {}", text.len()),
            Action::Send { command, data } => format!("send {command} <- {}", data.len()),
            Action::Upload { command } => format!("upload {command}"),
            Action::Update(update) => format!(
                "update {} {:?} {:?} {}",
                update.uuid, update.parent, update.visible_name, update.now_ms
            ),
            Action::Finished => "finished".to_string(),
        })
        .collect()
}

#[test]
fn the_data_directory_ends_without_a_slash() {
    let client = client();
    assert_eq!(client.dir, "/data");
    assert_eq!(client.remote_path("x"), "/data/x");
    let client = client.with_progress(NoProgress);
    assert_eq!(client.session.target(), "root@10.11.99.1");
}

#[test]
fn the_listing_script_quotes_its_directory() {
    let script = list_script("/a b", "=M=");
    assert!(script.starts_with("cd '/a b' || exit 9\nfor f in *.metadata *.content; do\n"));
    assert!(script.contains("printf '\\n%s %s\\n' '=M=' \"$f\"\n"));
    assert!(script.contains("printf '\\n%s __sizes__\\n' '=M='\n"));
    assert!(script.ends_with("\"$(wc -c < \"$f\")\" \"$f\"\ndone\n"));
    assert_eq!(client().list_script("=M="), list_script("/data", "=M="));
}

#[test]
fn listed_items_come_in_the_order_of_their_uuids() {
    let output = "M b.metadata\n{\"type\":\"CollectionType\"}\nM a.metadata\n{\"type\":\"DocumentType\"}\nM a.content\n{}\nM __sizes__\nx a.pdf\n7 a.pdf\n";
    let items = client().list_items("M", output);
    assert_eq!(items.len(), 2);
    assert_eq!(items[0].uuid, "a");
    assert_eq!(items[0].file_type.as_deref(), Some("notebook"));
    assert_eq!(items[0].size_bytes, None);
    assert_eq!(items[1].uuid, "b");
    // Nameless items are shown by their UUID.
    assert_eq!(items[1].visible_name, "b");
}

#[test]
fn later_sections_replace_earlier_ones() {
    let listing = parse_listing("M", "M a.metadata\n1\nM a.metadata\n2\n");
    assert_eq!(listing.metadata.get("a"), Some(&"2\n".to_string()));
    assert!(build_items(&listing).is_empty());
}

#[test]
fn fresh_identifiers_have_their_form() {
    let uuid = new_uuid();
    assert_eq!(uuid.len(), 36);
    assert_ne!(uuid, new_uuid());
    assert_eq!(
        marker_from("01234567-89ab-4cde-8f01-23456789abcd"),
        "===RMU:0123456789ab4cde8f0123456789abcd==="
    );
    let marker = new_marker();
    assert_eq!(marker.len(), 42);
    assert!(marker.starts_with("===RMU:") && marker.ends_with("==="));
    let dir = new_control_dir();
    assert!(dir.starts_with("/tmp/rmu-"));
    assert_eq!(dir.len(), 17);
}

#[test]
fn documents_become_visible_last() {
    let client = client();
    assert_eq!(
        shown(&client.store_payload("a.pdf", "u", "pdf")),
        ["step Uploading a.pdf", "upload cat > /data/u.pdf"]
    );
    assert_eq!(
        shown(&client.store_payload_bytes(vec![1, 2, 3], "N", "u", "epub")),
        ["step Uploading 'N'", "send cat > /data/u.epub <- 3"]
    );
    let Operation { actions, item } = client
        .register_document("u", "N", "p", "pdf", 5, Some(9));
    let lines = shown(&actions);
    assert_eq!(lines.len(), 6);
    assert_eq!(lines[0], "step Registering document");
    assert!(lines[1].starts_with("write cat > /data/u.content <- "));
    assert_eq!(lines[2], "run mkdir -p /data/u");
    assert_eq!(lines[3], "write cat > /data/u.pagedata <- 0");
    assert!(lines[4].starts_with("write cat > /data/u.metadata <- "));
    assert_eq!(lines[5], "finished");
    assert_eq!(item.visible_name, "N");
    assert_eq!(item.file_type.as_deref(), Some("pdf"));
    assert_eq!((item.created_time, item.last_modified), (5, 5));
    assert_eq!(item.size_bytes, Some(9));
}

#[test]
fn folders_are_three_small_files() {
    let Operation { actions, item } = client().create_folder_in("F", "p", "u", 5);
    match &actions[0] {
        Action::Write { command, text } => {
            assert_eq!(command, "cat > /data/u.metadata");
            let value: serde_json::Value = serde_json::from_str(text).unwrap();
            assert_eq!(value["visibleName"], "F");
            assert_eq!(value["parent"], "p");
        }
        other => panic!("expected a write, got {other:?}"),
    }
    assert_eq!(
        shown(&actions)[1..],
        ["write cat > /data/u.content <- 2", "write cat > /data/u.pagedata <- 1"]
    );
    assert!(item.is_folder());
    assert_eq!(item.size_bytes, None);
}

#[test]
fn payloads_are_updated_copied_and_moved_in_place() {
    let client = client();
    assert_eq!(
        shown(&client.update_payload_from_file("u", "pdf", "x.pdf")),
        ["step Updating x.pdf", "upload cat > /data/u.pdf"]
    );
    assert_eq!(
        shown(&client.update_payload_bytes("u", "epub", vec![0])),
        ["step Updating document", "send cat > /data/u.epub <- 1"]
    );
    assert_eq!(
        shown(&client.touch_last_modified("u", 4)),
        ["update u None None 4", "finished"]
    );
    assert_eq!(
        shown(&client.move_document("u", "p", "N", 4)),
        [
            "step Moving 'N' (metadata only)",
            "update u Some(\"p\") Some(\"N\") 4",
            "finished"
        ]
    );
    assert_eq!(
        shown(&client.copy_payload_on_device("u", "pdf", "v", "N")),
        [
            "step Copying payload on device for 'N'",
            "run cp -f /data/u.pdf /data/v.pdf"
        ]
    );
    assert_eq!(client.read_metadata("u"), "cat /data/u.metadata");
    assert_eq!(
        shown(&[client.write_metadata("u", "{}".to_string())]),
        ["write cat > /data/u.metadata <- 2"]
    );
    assert_eq!(client.download_payload_bytes("u", "pdf"), "cat /data/u.pdf");
    assert_eq!(
        shown(&[client.delete_document("a b")]),
        ["run cd /data && rm -rf -- 'a b' 'a b'.*"]
    );
    assert_eq!(
        client.fetch_item_tar("u"),
        "cd /data || exit 9\nset --\nfor f in u u.*; do [ -e \"$f\" ] && set -- \"$@\" \"$f\"; done\n[ \"$#\" -gt 0 ] || exit 8\ntar -cf - \"$@\"\n"
    );
}

#[test]
fn cyclic_parents_are_noticed_before_deleting() {
    let mut items = sample_tree();
    items.push(item("x", "X", "y", ItemKind::Folder));
    items.push(item("y", "Y", "x", ItemKind::Folder));
    assert!(!is_deletable(&items, &["x"], true));
    assert!(is_deletable(&items, &["b"], true));
    // Nothing is walked where a target does not resolve.
    assert!(is_deletable(&items, &["x", "nope"], true));
    assert!(is_deletable_expanded(&items, &["Books/*"], true));
}

#[test]
fn deletions_are_announced_one_by_one() {
    let client = client();
    let items = sample_tree();
    let order = client.delete(&items, "Books/M*", true).unwrap();
    assert_eq!(
        shown(&client.execute_deletions(&order)),
        [
            "step Deleting 'Linear Algebra'",
            "run cd /data && rm -rf -- la la.*",
            "step Deleting 'Math'",
            "run cd /data && rm -rf -- m m.*",
            "finished"
        ]
    );
    assert!(matches!(
        client.delete_many(&items, &["Notes", "Books/Z*"], true),
        Err(Error::PathNotFound(_))
    ));
    assert!(matches!(
        client.delete(&items, "/", true),
        Err(Error::RootTarget)
    ));
}

#[test]
fn emptying_the_trash_takes_what_is_in_it() {
    let items = vec![
        item("tf", "Old", TRASH_PARENT, ItemKind::Folder),
        item("tc", "Inside", "tf", ItemKind::Document),
        item("keep", "Keep", "", ItemKind::Document),
    ];
    assert_eq!(trashed_uuids(&items), ["tf"]);
    let order = client().empty_trash(&items).unwrap();
    let uuids: Vec<&str> = order.iter().map(|i| i.uuid.as_str()).collect();
    assert_eq!(uuids, ["tc", "tf"]);
    assert!(client().empty_trash(&[]).unwrap().is_empty());
}

#[test]
fn moves_report_everything_that_matched() {
    let client = client();
    let mut items = sample_tree();
    items.push(item("n2", "Notes 2", "b", ItemKind::Document));
    let moves = client.move_items(&items, "Books/Math/*", "Books", 9).unwrap();
    assert_eq!(
        shown(&moves.actions),
        [
            "step Moving 'Linear Algebra'",
            "update la Some(\"b\") None 9",
            "finished"
        ]
    );
    assert_eq!(moves.items.len(), 1);
    assert_eq!(moves.items[0].parent, "b");
    assert_eq!(moves.items[0].last_modified, 9);

    // One is in place already: it is reported as it is.
    let moves = client.move_items(&items, "**/*Ph*", "Books", 9).unwrap();
    assert!(moves.actions.is_empty());
    assert_eq!(moves.items[0].last_modified, 0);

    let moved = client.move_item(&items, "Notes", "Books/Math", 9).unwrap();
    assert_eq!(moved.item.parent, "m");
    assert!(matches!(
        client.move_items(&items, "Books", "Books", 9),
        Err(Error::MoveIntoSelf)
    ));
    assert!(matches!(
        client.move_items(&items, "Books", "Books/Math", 9),
        Err(Error::MoveIntoDescendant)
    ));
    assert!(matches!(
        client.move_items(&items, "Books", "Notes", 9),
        Err(Error::NotAFolder(_))
    ));
}

#[test]
fn a_mixed_move_leaves_settled_items_alone() {
    let mut items = sample_tree();
    items.push(item("ph2", "Photos", "", ItemKind::Document));
    let moves = client().move_items(&items, "**/Ph*", "Books", 9).unwrap();
    let mut parents: Vec<(String, i64)> = moves
        .items
        .iter()
        .map(|i| (i.uuid.clone(), i.last_modified))
        .collect();
    parents.sort();
    assert_eq!(parents, [("ph".to_string(), 0), ("ph2".to_string(), 9)]);
    assert!(moves.items.iter().all(|i| i.parent == "b"));
    assert_eq!(moves.actions.len(), 3);
}

#[test]
fn renaming_checks_the_name_first() {
    let client = client();
    let items = sample_tree();
    assert_eq!(check_name("  x ").unwrap(), "x");
    assert!(matches!(check_name(" \t"), Err(Error::InvalidName(_))));
    assert!(matches!(
        client.rename(&items, "nope", "a/b", 9),
        Err(Error::InvalidName(_))
    ));
    assert!(matches!(
        client.rename(&items, "nope", "x", 9),
        Err(Error::PathNotFound(_))
    ));
    let same = client.rename(&items, "Notes", " Notes ", 9).unwrap();
    assert!(same.actions.is_empty());
    assert_eq!(same.item.last_modified, 0);
    let renamed = client.rename(&items, "Notes", "Diary", 9).unwrap();
    assert_eq!(
        shown(&renamed.actions),
        [
            "step Updating metadata",
            "update n None Some(\"Diary\") 9",
            "finished"
        ]
    );
    assert_eq!(renamed.item.visible_name, "Diary");
    assert_eq!(renamed.item.last_modified, 9);
    assert!(matches!(
        client.rename(&items, "Notes", "Books", 9),
        Err(Error::NameConflict { .. })
    ));
}

fn make(items: Vec<Item>, path: &str) -> Result<(Vec<String>, Item), Error> {
    let client = client();
    let parts = folder_parts(path)?;
    let mut mkdir: Mkdir = client.mkdir_path(items, parts, "")?;
    let mut made = Vec::new();
    loop {
        match mkdir.next()? {
            MkdirStep::Done { folder, made: any } => {
                assert_eq!(any, !made.is_empty());
                return Ok((made, folder));
            }
            MkdirStep::Create { name, parent, rest } => {
                let uuid = format!("new{}", made.len());
                made.push(format!("{parent}/{name}"));
                mkdir = rest.created(client.create_folder_in(&name, &parent, &uuid, 1).item);
            }
        }
    }
}

#[test]
fn existing_folders_are_reused() {
    let (made, last) = make(sample_tree(), "Books / Math//Algebra/Linear").unwrap();
    assert_eq!(made, ["m/Algebra", "new0/Linear"]);
    assert_eq!(last.uuid, "new1");
    let (made, last) = make(sample_tree(), "/Books/Math/").unwrap();
    assert!(made.is_empty());
    assert_eq!(last.uuid, "m");
}

#[test]
fn a_folder_path_is_made_once() {
    let mut items = sample_tree();
    let (made, first) = make(sample_tree(), "Books/Math/Algebra/Linear").unwrap();
    assert_eq!(made, ["m/Algebra", "new0/Linear"]);
    items.push(item("new0", "Algebra", "m", ItemKind::Folder));
    items.push(item("new1", "Linear", "new0", ItemKind::Folder));
    let (made, second) = make(items, "Books/Math/Algebra/Linear").unwrap();
    assert!(made.is_empty());
    assert_eq!(second.uuid, first.uuid);
}

#[test]
fn folder_paths_can_fail() {
    assert!(matches!(make(sample_tree(), " / "), Err(Error::EmptyPath)));
    assert!(matches!(
        make(sample_tree(), "Notes/x"),
        Err(Error::NameConflict { .. })
    ));
    let mut items = sample_tree();
    items.push(item("b2", "Books", "", ItemKind::Folder));
    assert!(matches!(
        make(items, "Books/x"),
        Err(Error::AmbiguousPath { .. })
    ));
}

#[test]
fn uploads_go_by_extension() {
    let client = client();
    assert!(matches!(
        client.upload("x.pdf", false, Some("pdf")),
        Err(Error::FileNotFound(path)) if path == "x.pdf"
    ));
    assert_eq!(
        client.upload("x", true, Some("PDF")).unwrap(),
        UploadKind::Payload("pdf".to_string())
    );
    assert_eq!(
        client.upload("x", true, Some("epub")).unwrap(),
        UploadKind::Payload("epub".to_string())
    );
    assert_eq!(
        client.upload("x", true, Some("rmDoc")).unwrap(),
        UploadKind::Bundle
    );
    assert!(matches!(
        client.upload("x", true, Some("TXT")),
        Err(Error::UnsupportedFileType(t)) if t == "txt"
    ));
    assert!(matches!(
        client.upload("x", true, None),
        Err(Error::UnsupportedFileType(t)) if t.is_empty()
    ));
}

#[test]
fn uploads_need_a_free_name() {
    let items = sample_tree();
    assert_eq!(default_name(Some("N"), Some("file")), "N");
    assert_eq!(default_name(None, Some("file")), "file");
    assert_eq!(default_name(None, None), "untitled");
    assert_eq!(place_new(&items, "Books", "Notes").unwrap(), "b");
    assert_eq!(place_new(&items, "", "x").unwrap(), "");
    assert!(matches!(
        place_new(&items, "/", "Notes"),
        Err(Error::NameConflict { parent, .. }) if parent == "(root)"
    ));
    assert!(matches!(
        place_new(&items, "Nope", "x"),
        Err(Error::PathNotFound(_))
    ));
}

fn rmdoc(metadata: &str) -> libremarkable_utils::bundle::Rmdoc {
    libremarkable_utils::bundle::Rmdoc {
        uuid: "old".to_string(),
        metadata: Json::parse(metadata.as_bytes()).unwrap(),
        content: Some(Json::parse(b"{\"fileType\":\"pdf\"}").unwrap()),
        files: Vec::new(),
    }
}

#[test]
fn bundles_are_restored_with_new_metadata() {
    let client = client();
    let bundle = rmdoc(r#"{"type":"DocumentType","visibleName":"V","createdTime":"3","x":1}"#);
    assert_eq!(bundle_name(None, &bundle, Some("stem")), "V");
    assert_eq!(bundle_name(Some("N"), &bundle, Some("stem")), "N");
    let Operation { actions, item } = client.restore_bundle(bundle, "p", "N", "new", 8).unwrap();
    assert_eq!(item.uuid, "new");
    assert_eq!(item.visible_name, "N");
    assert_eq!(item.parent, "p");
    assert_eq!((item.created_time, item.last_modified), (3, 8));
    assert_eq!(item.file_type.as_deref(), Some("pdf"));
    assert_eq!(actions.len(), 3);
    match &actions[1] {
        Action::Send { command, data } => {
            assert_eq!(command, "cd /data && tar -xf -");
            let text = String::from_utf8_lossy(data);
            assert!(text.contains("new.metadata"));
            assert!(text.contains("\"x\": 1"));
        }
        other => panic!("expected bytes to send, got {other:?}"),
    }
}

#[test]
fn only_documents_are_restored() {
    let client = client();
    for metadata in [r#"{"type":"CollectionType"}"#, "{}", "[]"] {
        assert!(matches!(
            client.restore_bundle(rmdoc(metadata), "p", "N", "new", 8),
            Err(Error::Bundle(_))
        ));
    }
}

fn document(uuid: &str, name: &str, parent: &str, file_type: Option<&str>) -> Item {
    Item {
        file_type: file_type.map(str::to_string),
        size_bytes: Some(77),
        ..item(uuid, name, parent, ItemKind::Document)
    }
}

#[test]
fn downloads_are_named_by_type() {
    let pdf = document("u", "A", "", Some("pdf"));
    assert_eq!(download_filename(&pdf, false), "A.pdf");
    assert_eq!(download_filename(&pdf, true), "A.rmdoc");
    let notebook = document("u", "A", "", Some("notebook"));
    assert_eq!(download_filename(&notebook, false), "A.rmdoc");
    assert_eq!(download_filename(&document("u", "A", "", None), false), "A.rmdoc");
    match client().download_source(&pdf, false) {
        Source::Payload { command, size } => {
            assert_eq!(command, "cat /data/u.pdf");
            assert_eq!(size, Some(77));
        }
        other => panic!("expected a payload, got {other:?}"),
    }
    match client().download_source(&notebook, false) {
        Source::Bundle { script } => assert_eq!(script, client().fetch_item_tar("u")),
        other => panic!("expected a bundle, got {other:?}"),
    }
    assert_eq!(resolve_destination(None), Destination::Here);
    assert_eq!(resolve_destination(Some(true)), Destination::Inside);
    assert_eq!(resolve_destination(Some(false)), Destination::Exactly);
}

#[test]
fn several_downloads_need_room() {
    let client = client();
    let items = vec![
        item("b", "Books", "", ItemKind::Folder),
        item("m", "Math", "b", ItemKind::Folder),
        document("1", "A", "b", Some("pdf")),
        document("2", "A", "m", Some("pdf")),
        document("3", "A", "b", Some("epub")),
    ];
    let uuids = |found: Vec<&Item>| -> Vec<String> {
        found.iter().map(|i| i.uuid.clone()).collect()
    };
    let found = client.download_matching(&items, "Books/*", None, false).unwrap();
    assert_eq!(found.len(), 2);
    assert!(matches!(
        client.download_matching(&items, "Books/*", Some(("out", false)), false),
        Err(Error::OutputNotADirectory(path)) if path == "out"
    ));
    assert!(client
        .download_matching(&items, "Books/*", Some(("out", true)), false)
        .is_ok());
    assert!(matches!(
        client.download_matching(&items, "Books/**", None, false),
        Err(Error::NameConflict { parent, .. }) if parent == "the output directory"
    ));
    assert!(matches!(
        client.download_matching(&items, "Books/*", None, true),
        Err(Error::NameConflict { .. })
    ));
    assert!(matches!(
        client.download_matching(&items, "Books", None, false),
        Err(Error::NotADocument(_))
    ));
    let one = client.download_matching(&items, "2", Some(("out", false)), false).unwrap();
    assert_eq!(uuids(one), ["2"]);
    assert_eq!(client.download(&items, "2").unwrap().uuid, "2");
    assert!(matches!(
        client.download(&items, "Books"),
        Err(Error::NotADocument(_))
    ));
}

#[test]
fn hashes_are_asked_for_in_one_script() {
    let targets = vec![
        ("u".to_string(), "pdf".to_string()),
        ("v w".to_string(), "epub".to_string()),
    ];
    assert_eq!(
        client().payload_hashes(&targets),
        "cd /data || exit 9\ncommand -v sha256sum >/dev/null 2>&1 || exit 0\nfor f in u.pdf \\\n'v w.epub' \\\n; do [ -e \"$f\" ] && sha256sum -- \"$f\"; done\nexit 0\n"
    );
    let hashes = parse_payload_hashes("h1 *u.x.pdf\n  u.pdf\nh2 nodot\n");
    assert_eq!(hashes.len(), 1);
    assert_eq!(hashes.get("u.x"), Some(&"h1".to_string()));
}

#[test]
fn restarts_that_drop_the_line_are_checked() {
    let first = client().restart_xochitl();
    assert_eq!(first.command(), "systemctl reset-failed xochitl.service");
    assert!(first.is_optional() && !first.waits());
    // Whether the reset worked does not matter.
    let second = first.next(Some(1), "", "no such unit").unwrap().unwrap();
    assert_eq!(second.command(), "systemctl restart xochitl.service");
    assert!(!second.is_optional() && !second.waits());
    assert!(second.next(Some(0), "", "").unwrap().is_none());
    let third = second.next(None, "", " lost\n").unwrap().unwrap();
    assert_eq!(third.command(), "systemctl is-active xochitl.service");
    assert!(!third.is_optional() && third.waits());
    assert!(third.next(Some(0), "active\n", "").unwrap().is_none());
    match third.next(Some(3), "inactive\n", "") {
        Err(e) => assert_eq!(
            e.message(),
            "failed to restart xochitl: restart exit=None stderr='lost'; is-active exit=Some(3) stdout='inactive'"
        ),
        Ok(_) => panic!("an inactive service is no success"),
    }
    assert!(third.next(Some(0), "activating", "").is_err());
}

#[test]
fn the_system_state_counts_documents() {
    let status = client().system_status("M", "M cpus\n2\n", &sample_tree());
    assert_eq!(status.cpu_count, Some(2));
    let counts = status.documents.unwrap();
    assert_eq!((counts.documents, counts.folders, counts.trashed), (3, 2, 0));
}

#[test]
fn arguments_choose_sides() {
    assert_eq!(map_conflict(ConflictArg::Skip, true), ConflictPolicy::Skip);
    assert_eq!(map_conflict(ConflictArg::Newest, false), ConflictPolicy::Newest);
    assert_eq!(map_conflict(ConflictArg::Src, true), ConflictPolicy::PreferLocal);
    assert_eq!(map_conflict(ConflictArg::Src, false), ConflictPolicy::PreferRemote);
    assert_eq!(map_conflict(ConflictArg::Dst, true), ConflictPolicy::PreferRemote);
    assert_eq!(map_conflict(ConflictArg::Dst, false), ConflictPolicy::PreferLocal);
    let options = sync_options(false, false, true, ConflictArg::Src);
    assert_eq!(options.mode, Mode::Pull);
    assert!(options.delete);
    assert_eq!(sync_options(false, true, false, ConflictArg::Skip).mode, Mode::Push);
    assert_eq!(sync_options(true, true, false, ConflictArg::Skip).mode, Mode::TwoWay);
    assert!(writes_a(Mode::Pull) && !writes_a(Mode::Push));
    assert!(writes_b(Mode::TwoWay) && !writes_b(Mode::Pull));
    assert_eq!(tablet_identity("rm", "/Books//"), "rm:/Books");
}

#[test]
fn results_are_put_into_words() {
    assert_eq!(password_from_file("secret\r\nrest"), "secret");
    assert_eq!(password_from_file(""), "");
    let pdf = document("u", "A", "", Some("pdf"));
    assert_eq!(item_suffix(&pdf), " (pdf)");
    assert_eq!(item_suffix(&document("u", "A", "", None)), "");
    assert_eq!(deleted_line(&pdf), "  A (pdf) [u]");
    assert_eq!(deleted_line(&item("f", "F", "", ItemKind::Folder)), "  F/ [f]");
    assert_eq!(moved_line(&pdf), "Moved 'A' to (root)");
    let outcome = Outcome {
        uploaded: 1,
        deleted_local: 2,
        deleted_remote: 3,
        ..Outcome::default()
    };
    assert_eq!(
        sync_summary(&outcome, 6, 4),
        "Sync complete: 1 uploaded, 0 updated, 0 downloaded, 5 deleted (2 local / 3 device), 0 folder(s) created, 6 emptied folder(s) removed, 0 conflict(s), 0 skipped, 4 unsupported file(s) ignored."
    );
}
