use libremarkable_utils::epub::{
    build_epub, escape_xml, markdown_to_xhtml, plain_text_to_xhtml, text_to_epub, TextKind,
};
use std::io::{Cursor, Read};

fn read_entry(zip: &mut zip::ZipArchive<Cursor<Vec<u8>>>, name: &str) -> String {
    let mut out = String::new();
    zip.by_name(name).unwrap().read_to_string(&mut out).unwrap();
    out
}

#[test]
fn epub_structure_is_valid_ocf() {
    let bytes = text_to_epub("My Notes", TextKind::Plain, "hello").unwrap();
    let mut zip = zip::ZipArchive::new(Cursor::new(bytes)).unwrap();

    // mimetype must be the first entry and stored uncompressed.
    let first = zip.by_index(0).unwrap();
    assert_eq!(first.name(), "mimetype");
    assert_eq!(first.compression(), zip::CompressionMethod::Stored);
    drop(first);
    assert_eq!(read_entry(&mut zip, "mimetype"), "application/epub+zip");

    let container = read_entry(&mut zip, "META-INF/container.xml");
    assert!(container.contains("OEBPS/content.opf"));

    let opf = read_entry(&mut zip, "OEBPS/content.opf");
    assert!(opf.contains("<dc:title>My Notes</dc:title>"));
    assert!(opf.contains(r#"properties="nav""#));

    let content = read_entry(&mut zip, "OEBPS/content.xhtml");
    assert!(content.contains("<p>hello</p>"));
}

#[test]
fn markdown_renders_and_escapes_raw_html() {
    let source = "# Title\n\nSome *emphasis*.\n\n<script>alert(1)</script>\n\n- [x] done";
    let xhtml = markdown_to_xhtml(source);
    assert!(xhtml.contains("<h1>Title</h1>"));
    assert!(xhtml.contains("<em>emphasis</em>"));
    // Raw HTML must be escaped, never passed through.
    assert!(!xhtml.contains("<script>"));
    assert!(xhtml.contains("&lt;script&gt;"));
    assert!(xhtml.contains("checkbox"));
}

#[test]
fn plain_text_paragraphs_and_breaks() {
    let xhtml = plain_text_to_xhtml("first line\nsecond line\n\nnext & <para>\r\n\r\nlast");
    assert_eq!(
        xhtml,
        "<p>first line<br/>\nsecond line</p>\n<p>next &amp; &lt;para&gt;</p>\n<p>last</p>\n"
    );
}

#[test]
fn title_is_escaped_everywhere() {
    let bytes = text_to_epub("A & B <notes>", TextKind::Plain, "x").unwrap();
    let mut zip = zip::ZipArchive::new(Cursor::new(bytes)).unwrap();
    let opf = read_entry(&mut zip, "OEBPS/content.opf");
    assert!(opf.contains("A &amp; B &lt;notes&gt;"));
    let nav = read_entry(&mut zip, "OEBPS/nav.xhtml");
    assert!(nav.contains("A &amp; B &lt;notes&gt;"));
}

#[test]
fn escaping_leaves_no_markup() {
    assert_eq!(escape_xml("a<b>&\"c'"), "a&lt;b&gt;&amp;&quot;c&apos;");
    assert_eq!(escape_xml("plain"), "plain");
}

#[test]
fn an_epub_holds_exactly_its_five_files() {
    let bytes = build_epub("T", "<p>x</p>\n", "id-1").unwrap();
    let mut zip = zip::ZipArchive::new(Cursor::new(bytes)).unwrap();
    let names: Vec<String> = (0..zip.len())
        .map(|i| zip.by_index(i).unwrap().name().to_string())
        .collect();
    assert_eq!(
        names,
        [
            "mimetype",
            "META-INF/container.xml",
            "OEBPS/content.opf",
            "OEBPS/nav.xhtml",
            "OEBPS/content.xhtml"
        ]
    );
    assert!(read_entry(&mut zip, "OEBPS/content.opf").contains("id-1"));
}

#[test]
fn markdown_becomes_an_epub_too() {
    let bytes = text_to_epub("N", TextKind::Markdown, "**bold** <b>raw</b>").unwrap();
    let mut zip = zip::ZipArchive::new(Cursor::new(bytes)).unwrap();
    let content = read_entry(&mut zip, "OEBPS/content.xhtml");
    assert!(content.contains("<strong>bold</strong> &lt;b&gt;raw&lt;/b&gt;"));
}

#[test]
fn empty_text_is_no_paragraph() {
    assert_eq!(plain_text_to_xhtml(""), "");
    assert_eq!(plain_text_to_xhtml("\n\n\n\n"), "");
}
