use libremarkable_utils::action::Update;
use libremarkable_utils::error::Error;
use libremarkable_utils::json::Json;
use libremarkable_utils::metadata::{
    document_content_json, document_metadata_json, folder_metadata_json, item_from_metadata,
    rewrite_metadata, Change,
};
use libremarkable_utils::xochitl::ItemKind;

fn json(text: &str) -> Json {
    Json::parse(text.as_bytes()).unwrap()
}

#[test]
fn metadata_round_trip() {
    let metadata = json(&document_metadata_json("Doc", "b", 1234));
    let content = json(&document_content_json("pdf"));
    let item = item_from_metadata("u1", &metadata, Some(&content), Some(10)).unwrap();
    assert_eq!(item.visible_name, "Doc");
    assert_eq!(item.parent, "b");
    assert_eq!(item.kind, ItemKind::Document);
    assert_eq!(item.file_type.as_deref(), Some("pdf"));
    assert_eq!(item.created_time, 1234);
    assert_eq!(item.size_bytes, Some(10));

    let folder_md = json(&folder_metadata_json("Dir", "", 99));
    let folder = item_from_metadata("u2", &folder_md, None, None).unwrap();
    assert_eq!(folder.kind, ItemKind::Folder);
    assert_eq!(folder.parent, "");
}

#[test]
fn metadata_lenient_parsing() {
    // Numeric timestamps and unknown types.
    let metadata = json(
        r#"{
            "type": "DocumentType",
            "visibleName": "X",
            "parent": "trash",
            "createdTime": 42,
            "lastModified": "notanumber"
        }"#,
    );
    let item = item_from_metadata("u", &metadata, None, None).unwrap();
    assert_eq!(item.created_time, 42);
    assert_eq!(item.last_modified, 0);
    assert_eq!(item.parent, "trash");

    let deleted = json(r#"{ "type": "TrashType", "visibleName": "X" }"#);
    assert!(item_from_metadata("u", &deleted, None, None).is_none());
}

#[test]
fn notebook_file_type_inference() {
    let metadata = json(r#"{ "type": "DocumentType", "visibleName": "N" }"#);

    // Current firmware: explicit "notebook".
    let content = json(r#"{ "fileType": "notebook" }"#);
    let item = item_from_metadata("u", &metadata, Some(&content), None).unwrap();
    assert_eq!(item.file_type.as_deref(), Some("notebook"));

    // Older firmware: empty fileType means native notebook.
    let content = json(r#"{ "fileType": "" }"#);
    let item = item_from_metadata("u", &metadata, Some(&content), None).unwrap();
    assert_eq!(item.file_type.as_deref(), Some("notebook"));

    // Missing .content entirely: do not guess.
    let item = item_from_metadata("u", &metadata, None, None).unwrap();
    assert_eq!(item.file_type, None);
}

#[test]
fn new_files_are_what_the_device_expects() {
    let document: serde_json::Value =
        serde_json::from_str(&document_metadata_json("D \"q\"", "p", -5)).unwrap();
    assert_eq!(document["createdTime"], "-5");
    assert_eq!(document["lastModified"], "-5");
    assert_eq!(document["lastOpened"], "0");
    assert_eq!(document["lastOpenedPage"], 0);
    assert_eq!(document["new"], true);
    assert_eq!(document["parent"], "p");
    assert_eq!(document["pinned"], false);
    assert_eq!(document["source"], "");
    assert_eq!(document["type"], "DocumentType");
    assert_eq!(document["visibleName"], "D \"q\"");
    assert_eq!(document.as_object().unwrap().len(), 10);

    let folder: serde_json::Value =
        serde_json::from_str(&folder_metadata_json("F", "", 7)).unwrap();
    assert_eq!(folder["type"], "CollectionType");
    assert_eq!(folder["version"], 0);
    assert_eq!(folder["synced"], false);
    assert_eq!(folder["modified"], false);
    assert_eq!(folder["metadatamodified"], false);
    assert_eq!(folder.as_object().unwrap().len(), 10);

    let content: serde_json::Value =
        serde_json::from_str(&document_content_json("epub")).unwrap();
    assert_eq!(content["fileType"], "epub");
    assert_eq!(content["formatVersion"], 2);
    assert_eq!(content["margins"], 100);
    assert_eq!(content["cPages"]["original"]["value"], -1);
    assert_eq!(content["orientation"], "portrait");
}

#[test]
fn new_items_are_read_back() {
    let metadata = json(&document_metadata_json("D \"q\"", "p", -5));
    let content = json(&document_content_json("a\\b"));
    let item = item_from_metadata("u", &metadata, Some(&content), Some(7)).unwrap();
    assert_eq!(item.uuid, "u");
    assert_eq!(item.visible_name, "D \"q\"");
    assert_eq!(item.parent, "p");
    assert_eq!(item.kind, ItemKind::Document);
    assert_eq!(item.file_type.as_deref(), Some("a\\b"));
    assert_eq!((item.created_time, item.last_modified), (-5, -5));
    assert_eq!(item.size_bytes, Some(7));

    let metadata = json(&folder_metadata_json("F", "p", 8));
    let item = item_from_metadata("u", &metadata, Some(&content), Some(7)).unwrap();
    assert_eq!((item.visible_name.as_str(), item.parent.as_str()), ("F", "p"));
    assert_eq!(item.kind, ItemKind::Folder);
    assert_eq!((item.created_time, item.last_modified), (8, 8));
    assert_eq!((item.file_type, item.size_bytes), (None, None));
}

#[test]
fn content_is_printed_whole() {
    let expected = "{
  \"cPages\": {
    \"original\": {
      \"timestamp\": \"1:0\",
      \"value\": -1
    },
    \"pages\": []
  },
  \"coverPageNumber\": 0,
  \"documentMetadata\": {},
  \"extraMetadata\": {},
  \"fileType\": \"pdf\",
  \"fontName\": \"\",
  \"formatVersion\": 2,
  \"lineHeight\": -1,
  \"margins\": 100,
  \"orientation\": \"portrait\",
  \"pageCount\": 0,
  \"pageTags\": [],
  \"sizeInBytes\": \"0\",
  \"textAlignment\": \"left\",
  \"textScale\": 1
}";
    assert_eq!(document_content_json("pdf"), expected);
}

#[test]
fn changes_keep_what_they_do_not_know() {
    let text = r#"{"visibleName":"Old","parent":"p","x":[1,{"y":null}],"big":18446744073709551615}"#;
    let change = Change {
        parent: None,
        visible_name: Some("New"),
        now_ms: 1700000000000,
    };
    let new = rewrite_metadata("u", text, &change).unwrap();
    let value: serde_json::Value = serde_json::from_str(&new).unwrap();
    assert_eq!(value["visibleName"], "New");
    assert_eq!(value["parent"], "p");
    assert_eq!(value["lastModified"], "1700000000000");
    assert_eq!(value["x"][1]["y"], serde_json::Value::Null);
    assert_eq!(value["big"], 18446744073709551615u64);
}

#[test]
fn metadata_files_must_be_objects() {
    let update = Update {
        uuid: "u".to_string(),
        parent: None,
        visible_name: None,
        now_ms: 1,
    };
    assert!(matches!(
        update.apply("[1]"),
        Err(Error::InvalidMetadata(uuid)) if uuid == "u"
    ));
    match update.apply("{") {
        Err(Error::Json { path, .. }) => assert_eq!(path, "u.metadata"),
        other => panic!("expected a JSON error, got {other:?}"),
    }
}
