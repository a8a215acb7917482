use libremarkable_utils::bundle::{
    belongs_to, is_appledouble, parse_rmdoc, rmdoc_to_tar, tar_to_rmdoc, try_tar_to_rmdoc, Rmdoc,
    RmdocEntry,
};
use libremarkable_utils::error::Error;
use libremarkable_utils::json::{Field, Json};
use serde_json::Value;
use std::io::{Cursor, Read};

fn chars(s: &str) -> Vec<char> {
    s.chars().collect()
}

fn tar_with(entries: &[(&str, Option<&[u8]>)]) -> Vec<u8> {
    let mut builder = tar::Builder::new(Vec::new());
    for (path, contents) in entries {
        match contents {
            Some(data) => {
                let mut header = tar::Header::new_gnu();
                header.set_size(data.len() as u64);
                header.set_mode(0o644);
                header.set_cksum();
                builder.append_data(&mut header, path, *data).unwrap();
            }
            None => {
                let mut header = tar::Header::new_gnu();
                header.set_entry_type(tar::EntryType::Directory);
                header.set_size(0);
                header.set_mode(0o755);
                header.set_cksum();
                builder.append_data(&mut header, path, &[][..]).unwrap();
            }
        }
    }
    builder.into_inner().unwrap()
}

#[test]
fn tar_round_trips_to_zip() {
    let tar_bytes = tar_with(&[
        ("u1.metadata", Some(br#"{"type":"DocumentType"}"#)),
        ("u1.content", Some(br#"{"fileType":"notebook"}"#)),
        ("u1", None),
        ("u1/page1.rm", Some(b"stroke data")),
    ]);

    let zip_bytes = tar_to_rmdoc(&tar_bytes).unwrap();
    let mut zip = zip::ZipArchive::new(Cursor::new(zip_bytes)).unwrap();

    let mut names: Vec<String> = (0..zip.len())
        .map(|i| zip.by_index(i).unwrap().name().to_string())
        .collect();
    names.sort();
    assert_eq!(names, ["u1.content", "u1.metadata", "u1/", "u1/page1.rm"]);

    let mut page = String::new();
    zip.by_name("u1/page1.rm")
        .unwrap()
        .read_to_string(&mut page)
        .unwrap();
    assert_eq!(page, "stroke data");
}

#[test]
fn appledouble_entries_are_dropped() {
    let tar_bytes = tar_with(&[
        ("._u1.metadata", Some(b"apple noise".as_slice())),
        ("u1/._page1.rm", Some(b"apple noise".as_slice())),
        ("u1.metadata", Some(br#"{}"#.as_slice())),
    ]);
    let zip_bytes = tar_to_rmdoc(&tar_bytes).unwrap();
    let mut zip = zip::ZipArchive::new(Cursor::new(zip_bytes)).unwrap();
    let names: Vec<String> = (0..zip.len())
        .map(|i| zip.by_index(i).unwrap().name().to_string())
        .collect();
    assert_eq!(names, ["u1.metadata"]);
}

#[test]
fn empty_tar_yields_empty_zip() {
    let zip_bytes = tar_to_rmdoc(&tar_with(&[])).unwrap();
    let zip = zip::ZipArchive::new(Cursor::new(zip_bytes)).unwrap();
    assert_eq!(zip.len(), 0);
}

fn sample_rmdoc() -> Vec<u8> {
    tar_to_rmdoc(&tar_with(&[
        (
            "aaa.metadata",
            Some(
                br#"{"type":"DocumentType","visibleName":"My Notes","parent":"old"}"#
                    .as_slice(),
            ),
        ),
        (
            "aaa.content",
            Some(br#"{"fileType":"notebook"}"#.as_slice()),
        ),
        ("aaa.pagedata", Some(b"Blank\n".as_slice())),
        ("aaa", None),
        ("aaa/p1.rm", Some(b"strokes".as_slice())),
    ]))
    .unwrap()
}

#[test]
fn parse_and_retarget_rmdoc() {
    let mut rmdoc = parse_rmdoc(&sample_rmdoc()).unwrap();
    assert_eq!(rmdoc.uuid, "aaa");
    assert_eq!(rmdoc.visible_name(), Some("My Notes"));
    assert_eq!(rmdoc.file_type(), Some("notebook"));

    // Mutate like an upload would.
    match &mut rmdoc.metadata {
        Json::Object(fields) => {
            fields.insert("parent".to_string(), Field::Text("newparent".to_string()))
        }
        Json::Other(_) => panic!("not an object"),
    }

    let tar_bytes = rmdoc_to_tar(&rmdoc, "bbb").unwrap();
    let mut archive = tar::Archive::new(&tar_bytes[..]);
    let mut paths = Vec::new();
    let mut metadata_text = String::new();
    for entry in archive.entries().unwrap() {
        let mut entry = entry.unwrap();
        let path = entry.path().unwrap().to_string_lossy().into_owned();
        if path == "bbb.metadata" {
            entry.read_to_string(&mut metadata_text).unwrap();
        }
        paths.push(path);
    }
    // Crash consistency: .metadata must be the LAST entry so an
    // interrupted extraction never leaves a visible document.
    assert_eq!(paths.last().map(String::as_str), Some("bbb.metadata"));
    paths.sort();
    assert_eq!(
        paths,
        [
            "bbb",
            "bbb.content",
            "bbb.metadata",
            "bbb.pagedata",
            "bbb/p1.rm"
        ]
    );

    let metadata: Value = serde_json::from_str(&metadata_text).unwrap();
    assert_eq!(metadata["parent"], "newparent");
    assert_eq!(metadata["visibleName"], "My Notes");
    // Unknown/other fields preserved.
    assert_eq!(metadata["type"], "DocumentType");
}

#[test]
fn bundles_move_whole() {
    let text = br#"{"big":18446744073709551615,"list":[1,{"a":null}],"visibleName":"N"}"#;
    let bytes = tar_to_rmdoc(&tar_with(&[
        ("aaa", None),
        ("aaa/._p1.rm", Some(b"apple noise".as_slice())),
        ("aaa/p1.rm", Some(b"strokes".as_slice())),
        ("aaa.metadata", Some(text.as_slice())),
        ("aaa.content", Some(b" {} ".as_slice())),
    ]))
    .unwrap();
    let rmdoc = parse_rmdoc(&bytes).unwrap();
    let tar_bytes = rmdoc_to_tar(&rmdoc, "new").unwrap();
    let mut archive = tar::Archive::new(&tar_bytes[..]);
    let mut seen = Vec::new();
    for entry in archive.entries().unwrap() {
        let mut entry = entry.unwrap();
        let path = entry.path().unwrap().to_string_lossy().into_owned();
        let mut data = Vec::new();
        entry.read_to_end(&mut data).unwrap();
        seen.push((path, data));
    }
    let (last, metadata) = seen.pop().unwrap();
    assert_eq!(
        seen,
        [
            ("new".to_string(), Vec::new()),
            ("new/p1.rm".to_string(), b"strokes".to_vec()),
            ("new.content".to_string(), b" {} ".to_vec()),
        ]
    );
    assert_eq!(last, "new.metadata");
    let printed: Value = serde_json::from_slice(&metadata).unwrap();
    let parsed: Value = serde_json::from_slice(text).unwrap();
    assert_eq!(printed, parsed);
}

#[test]
fn metadata_need_not_be_an_object() {
    let bytes = tar_to_rmdoc(&tar_with(&[("aaa.metadata", Some(b"[1,\"x\"]".as_slice()))])).unwrap();
    let tar_bytes = rmdoc_to_tar(&parse_rmdoc(&bytes).unwrap(), "new").unwrap();
    let mut archive = tar::Archive::new(&tar_bytes[..]);
    let mut text = String::new();
    for entry in archive.entries().unwrap() {
        entry.unwrap().read_to_string(&mut text).unwrap();
    }
    assert_eq!(text, "[\n  1,\n  \"x\"\n]");
}

/// The path under which a file of the document `u` goes out once it is moved to `target`.
fn moved_path(path: &str, target: &str) -> Result<String, Error> {
    let rmdoc = Rmdoc {
        uuid: "u".to_string(),
        metadata: Json::parse(b"{}").unwrap(),
        content: None,
        files: vec![RmdocEntry { path: path.to_string(), data: Some(b"x".to_vec()) }],
    };
    let tar_bytes = rmdoc_to_tar(&rmdoc, target)?;
    let mut archive = tar::Archive::new(&tar_bytes[..]);
    let entry = archive.entries().unwrap().next().unwrap().unwrap();
    let path = String::from_utf8(entry.path_bytes().into_owned()).unwrap();
    Ok(path)
}

#[test]
fn moved_paths_lose_what_leads_nowhere() {
    let long = "x".repeat(120);
    let accents = "\u{e9}".repeat(60);
    let cases = [
        ("u//a".to_string(), "n/a".to_string()),
        ("u/./b".to_string(), "n/b".to_string()),
        ("u/.".to_string(), "n".to_string()),
        ("u/c/".to_string(), "n/c/".to_string()),
        ("u/.//d/./".to_string(), "n/d/".to_string()),
        (format!("u/{long}"), format!("n/{long}")),
        (format!("u//./{long}"), format!("n//./{long}")),
        (format!("u/{accents}"), format!("n/{accents}")),
        (format!("u{}{}", "/".repeat(60), "x".repeat(60)), format!("n/{}", "x".repeat(60))),
        (format!("u//{}", "x".repeat(98)), format!("n/{}", "x".repeat(98))),
        (format!("u//{}", "x".repeat(99)), format!("n//{}", "x".repeat(99))),
        (format!("u/{}/..z", "y".repeat(95)), format!("n/{}/..z", "y".repeat(95))),
    ];
    for (path, expected) in cases {
        assert_eq!(moved_path(&path, "n").unwrap(), expected);
    }
    assert_eq!(moved_path("u", ".").unwrap(), ".");
    assert_eq!(moved_path("u//.", ".").unwrap(), ".");
    assert_eq!(moved_path("u/", ".").unwrap(), "./");
    assert_eq!(moved_path("u/a", ".").unwrap(), "a");
}

#[test]
fn moved_paths_stay_below_the_root() {
    for path in ["u/../a", "u/..", "u/a/../b", "u.\0"] {
        assert!(matches!(moved_path(path, "n"), Err(Error::Io(_))));
    }
    assert!(matches!(moved_path("u", ""), Err(Error::Io(_))));
    assert!(matches!(moved_path("u/a", ""), Err(Error::Io(_))));
    assert!(matches!(moved_path("u/a", "/n"), Err(Error::Io(_))));
    let long = format!("u/{}", "x".repeat(120));
    assert!(matches!(moved_path(&long, "/n"), Err(Error::Io(_))));
}

#[test]
fn bundles_hold_more_entries_than_sixteen_bits_count() {
    let names: Vec<String> = (0..65_600).map(|i| format!("u/{i}")).collect();
    let mut entries: Vec<(&str, Option<&[u8]>)> =
        names.iter().map(|name| (name.as_str(), None)).collect();
    entries.push(("u.metadata", Some(b"{}".as_slice())));
    let rmdoc = parse_rmdoc(&tar_to_rmdoc(&tar_with(&entries)).unwrap()).unwrap();
    assert_eq!(rmdoc.files.len(), 65_600);
    assert_eq!(rmdoc.files[65_599].path, "u/65599");
}

#[test]
fn rmdoc_without_metadata_is_rejected() {
    let bytes = tar_to_rmdoc(&tar_with(&[("aaa.content", Some(b"{}".as_slice()))])).unwrap();
    assert!(matches!(parse_rmdoc(&bytes), Err(Error::Bundle(_))));
}

#[test]
fn rmdoc_with_multiple_documents_is_rejected() {
    let bytes = tar_to_rmdoc(&tar_with(&[
        ("aaa.metadata", Some(b"{}".as_slice())),
        ("bbb.metadata", Some(b"{}".as_slice())),
    ]))
    .unwrap();
    assert!(matches!(parse_rmdoc(&bytes), Err(Error::Bundle(_))));
}

#[test]
fn rmdoc_with_foreign_entries_is_rejected() {
    // "aaabbb.pdf" shares a prefix with "aaa" but is not the same doc.
    let bytes = tar_to_rmdoc(&tar_with(&[
        ("aaa.metadata", Some(b"{}".as_slice())),
        ("aaabbb.pdf", Some(b"x".as_slice())),
    ]))
    .unwrap();
    assert!(matches!(parse_rmdoc(&bytes), Err(Error::Bundle(_))));
}

#[test]
fn only_the_last_path_component_marks_appledouble() {
    assert!(is_appledouble(&chars("._x")));
    assert!(is_appledouble(&chars("a/b/._x")));
    assert!(!is_appledouble(&chars("._a/x")));
    assert!(!is_appledouble(&chars("a._x")));
}

#[test]
fn paths_belong_to_a_document_by_whole_names() {
    assert!(belongs_to(&chars("aaa"), &chars("aaa")));
    assert!(belongs_to(&chars("aaa.pdf"), &chars("aaa")));
    assert!(belongs_to(&chars("aaa/page.rm"), &chars("aaa")));
    assert!(!belongs_to(&chars("aaab"), &chars("aaa")));
    assert!(!belongs_to(&chars("aa"), &chars("aaa")));
}

#[test]
fn a_name_that_occurs_twice_cannot_be_packed() {
    let tar_bytes = tar_with(&[
        ("aaa.content", Some(b"1".as_slice())),
        ("aaa.content", Some(b"2".as_slice())),
    ]);
    assert!(matches!(tar_to_rmdoc(&tar_bytes), Err(Error::Bundle(_))));
}

#[test]
fn a_truncated_tar_is_an_error() {
    let tar_bytes = tar_with(&[("aaa.content", Some([7u8; 4000].as_slice()))]);
    assert!(matches!(tar_to_rmdoc(&tar_bytes[..1000]), Err(Error::Io(_))));
    assert!(matches!(
        try_tar_to_rmdoc(&tar_bytes[..1000]),
        Some(Err(Error::Io(_)))
    ));
}

#[test]
fn bytes_that_are_no_zip_are_rejected() {
    assert!(matches!(parse_rmdoc(b"not a zip"), Err(Error::Bundle(_))));
}

#[test]
fn metadata_that_is_no_json_is_rejected() {
    let bytes = tar_to_rmdoc(&tar_with(&[("aaa.metadata", Some(b"nope".as_slice()))])).unwrap();
    match parse_rmdoc(&bytes) {
        Err(Error::Json { path, .. }) => assert_eq!(path, "aaa.metadata"),
        other => panic!("expected a JSON error, got {other:?}"),
    }
}

#[test]
fn a_bundle_survives_being_restored_and_packed_again() {
    let rmdoc = parse_rmdoc(&sample_rmdoc()).unwrap();
    let again = tar_to_rmdoc(&rmdoc_to_tar(&rmdoc, "bbb").unwrap()).unwrap();
    let back = parse_rmdoc(&again).unwrap();
    assert_eq!(back.uuid, "bbb");
    assert_eq!(back.visible_name(), Some("My Notes"));
    assert_eq!(back.file_type(), Some("notebook"));
    let page = back.files.iter().find(|f| f.path == "bbb/p1.rm").unwrap();
    assert_eq!(page.data.as_deref(), Some(b"strokes".as_slice()));
}
