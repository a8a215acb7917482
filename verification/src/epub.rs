//! Minimal EPUB 3 generation for text imports.
//!
//! The device renders only notebooks, PDF, and EPUB, so `.txt` and `.md` files are converted to
//! EPUB at upload. The archive is deliberately minimal but valid: `mimetype` (stored uncompressed,
//! first entry), `META-INF/container.xml`, a nav document, one XHTML content file, and the OPF
//! manifest.
use vstd::prelude::*;
use vstd::utf8::encode_utf8;
use crate::archive::{
    all_packable, any_oversized, fits_zip, names_differ, names_fit, write_zip, zip_listing, zip_name, zip_of, ArchiveEntry,
    EntryView, SlotView, ZipFault,
};
use crate::error::Error;
use crate::ident::{fresh_uuid, is_uuid};
use crate::text::{
    cat5, extend, from_chars, join, join_in, lines, lines_in, pieces, skip_chars, starts_with,
    take_chars, to_chars, trim, trim_in, Class,
};
use crate::text_laws::edges_are_trimmed;

verus! {

/// Source flavor of a text import.
#[derive(Debug, Clone, Copy, PartialEq, Eq, Structural)]
pub enum TextKind {
    /// CommonMark and tables, strikethrough, task lists, footnotes.
    Markdown,
    /// Plain text: blank-line paragraphs, single newlines become `<br/>`.
    Plain,
}

/// What stands for a character in XML text.
pub open spec fn escape_char(c: char) -> Seq<char> {
    if c == '&' {
        "&amp;"@
    } else if c == '<' {
        "&lt;"@
    } else if c == '>' {
        "&gt;"@
    } else if c == '"' {
        "&quot;"@
    } else if c == '\'' {
        "&apos;"@
    } else {
        seq![c]
    }
}

/// A text with the special characters of XML escaped.
pub open spec fn escaped(s: Seq<char>) -> Seq<char>
    decreases s.len(),
{
    if s.len() == 0 {
        Seq::empty()
    } else {
        escaped(s.drop_last()) + escape_char(s.last())
    }
}

fn escape_into(out: &mut Vec<char>, s: &[char])
    ensures
        final(out)@ == old(out)@ + escaped(s@),
{
    let ghost start = out@;
    let mut i: usize = 0;
    assert(start + escaped(s@.take(0)) =~= start);
    while i < s.len()
        invariant
            i <= s.len(),
            out@ == start + escaped(s@.take(i as int)),
        decreases s.len() - i,
    {
        let c = s[i];
        let ghost before = out@;
        if c == '&' {
            extend(out, &to_chars("&amp;"));
        } else if c == '<' {
            extend(out, &to_chars("&lt;"));
        } else if c == '>' {
            extend(out, &to_chars("&gt;"));
        } else if c == '"' {
            extend(out, &to_chars("&quot;"));
        } else if c == '\'' {
            extend(out, &to_chars("&apos;"));
        } else {
            out.push(c);
            assert(out@ =~= before + seq![c]);
        }
        proof {
            assert(s@.take(i + 1).drop_last() =~= s@.take(i as int));
            assert(out@ == before + escape_char(c));
            assert(out@ =~= start + escaped(s@.take(i + 1)));
        }
        i += 1;
    }
    assert(s@.take(i as int) =~= s@);
}

/// Escapes the special characters of XML.
pub fn escape_xml(text: &str) -> (r: String)
    ensures
        r@ == escaped(text@),
{
    let mut out: Vec<char> = Vec::new();
    escape_into(&mut out, &to_chars(text));
    assert(out@ =~= escaped(text@));
    from_chars(&out)
}

/// A text with each carriage return before a newline left out.
pub open spec fn unix_newlines(s: Seq<char>) -> Seq<char>
    decreases s.len(),
{
    if s.len() == 0 {
        s
    } else if s.len() >= 2 && s[0] == '\r' && s[1] == '\n' {
        seq!['\n'] + unix_newlines(s.skip(2))
    } else {
        seq![s[0]] + unix_newlines(s.skip(1))
    }
}

fn to_unix_newlines(s: &[char]) -> (out: Vec<char>)
    ensures
        out@ == unix_newlines(s@),
{
    let mut out: Vec<char> = Vec::new();
    let mut i: usize = 0;
    assert(s@.skip(0) =~= s@);
    assert(unix_newlines(s@) =~= out@ + unix_newlines(s@.skip(0)));
    while i < s.len()
        invariant
            i <= s.len(),
            unix_newlines(s@) == out@ + unix_newlines(s@.skip(i as int)),
        decreases s.len() - i,
    {
        let ghost before = out@;
        let ghost rest = s@.skip(i as int);
        if s.len() - i >= 2 && s[i] == '\r' && s[i + 1] == '\n' {
            out.push('\n');
            assert(rest.skip(2) =~= s@.skip(i + 2));
            i += 2;
            assert(before + (seq!['\n'] + unix_newlines(s@.skip(i as int))) =~= out@
                + unix_newlines(s@.skip(i as int)));
        } else {
            let c = s[i];
            out.push(c);
            assert(rest.skip(1) =~= s@.skip(i + 1));
            i += 1;
            assert(before + (seq![c] + unix_newlines(s@.skip(i as int))) =~= out@ + unix_newlines(
                s@.skip(i as int),
            ));
        }
    }
    assert(out@ + unix_newlines(s@.skip(i as int)) =~= out@);
    out
}

/// Position of the first empty line, as two newlines in a row, from position `i` on; the length
/// where there is none.
pub open spec fn blank_from(s: Seq<char>, i: int) -> int
    decreases s.len() - i,
{
    if i < 0 || i + 1 >= s.len() {
        s.len() as int
    } else if s[i] == '\n' && s[i + 1] == '\n' {
        i
    } else {
        blank_from(s, i + 1)
    }
}

/// The position of an empty line lies within the text.
pub proof fn blank_from_bounds(s: Seq<char>, i: int)
    requires
        0 <= i <= s.len(),
    ensures
        i <= blank_from(s, i) <= s.len(),
        blank_from(s, i) < s.len() ==> blank_from(s, i) + 2 <= s.len(),
    decreases s.len() - i,
{
    if i + 1 < s.len() && !(s[i] == '\n' && s[i + 1] == '\n') {
        blank_from_bounds(s, i + 1);
    }
}

/// The pieces of a text between empty lines.
pub open spec fn blocks(s: Seq<char>) -> Seq<Seq<char>>
    decreases s.len(),
{
    proof {
        blank_from_bounds(s, 0);
    }
    let i = blank_from(s, 0);
    if i < s.len() {
        seq![s.take(i)] + blocks(s.skip(i + 2))
    } else {
        seq![s]
    }
}

fn find_blank(s: &[char]) -> (i: usize)
    ensures
        i == blank_from(s@, 0),
        i <= s.len(),
        i < s.len() ==> i + 2 <= s.len(),
{
    proof {
        blank_from_bounds(s@, 0);
    }
    let mut i: usize = 0;
    while i < s.len() && s.len() - i > 1
        invariant
            i <= s.len(),
            blank_from(s@, 0) == blank_from(s@, i as int),
            0 <= blank_from(s@, 0) <= s.len(),
            blank_from(s@, 0) < s.len() ==> blank_from(s@, 0) + 2 <= s.len(),
        decreases s.len() - i,
    {
        if s[i] == '\n' && s[i + 1] == '\n' {
            return i;
        }
        i += 1;
    }
    s.len()
}

/// The paragraph that a piece of text makes: its lines escaped, with line breaks between them.
pub open spec fn paragraph(block: Seq<char>) -> Seq<char> {
    let body = lines(block);
    "<p>"@ + join(Seq::new(body.len(), |i: int| escaped(body[i])), "<br/>\n"@) + "</p>\n"@
}

/// The paragraphs of the first `n` pieces of text, without empty ones.
pub open spec fn paragraphs(parts: Seq<Seq<char>>, n: nat) -> Seq<char>
    decreases n,
{
    if n == 0 {
        Seq::empty()
    } else {
        let before = paragraphs(parts, (n - 1) as nat);
        let block = trim(parts[n - 1], Class::White);
        if block.len() == 0 {
            before
        } else {
            before + paragraph(block)
        }
    }
}

/// A plain text as XHTML.
pub open spec fn plain_xhtml(source: Seq<char>) -> Seq<char> {
    let parts = blocks(unix_newlines(source));
    paragraphs(parts, parts.len())
}

fn write_paragraph(out: &mut Vec<char>, block: &[char])
    ensures
        final(out)@ == old(out)@ + paragraph(block@),
{
    let ghost start = out@;
    let body = lines_in(block);
    let ghost views = pieces(body@);
    let mut texts: Vec<Vec<char>> = Vec::new();
    let mut i: usize = 0;
    while i < body.len()
        invariant
            i <= body.len(),
            views == pieces(body@),
            texts.len() == i,
            forall|k: int| 0 <= k < i ==> #[trigger] texts[k]@ == escaped(views[k]),
        decreases body.len() - i,
    {
        let mut text: Vec<char> = Vec::new();
        escape_into(&mut text, &body[i]);
        assert(text@ =~= escaped(views[i as int]));
        texts.push(text);
        i += 1;
    }
    let joined = join_in(&texts, &to_chars("<br/>\n"));
    assert(pieces(texts@) =~= Seq::new(views.len(), |i: int| escaped(views[i])));
    extend(out, &to_chars("<p>"));
    extend(out, &joined);
    extend(out, &to_chars("</p>\n"));
    assert(out@ =~= start + paragraph(block@));
}

/// Plain text to XHTML: blank-line-separated paragraphs, single newlines rendered as line breaks,
/// so that the text reflows on the device.
pub fn plain_text_to_xhtml(source: &str) -> (r: String)
    ensures
        r@ == plain_xhtml(source@),
{
    let text = to_unix_newlines(&to_chars(source));
    let ghost all = text@;
    let mut out: Vec<char> = Vec::new();
    let mut rest: &[char] = &text;
    let ghost mut n: nat = 0;
    let ghost parts = blocks(all);
    assert(parts.skip(0) =~= parts);
    loop
        invariant
            parts == blocks(all),
            all == unix_newlines(source@),
            n < parts.len(),
            parts.skip(n as int) == blocks(rest@),
            out@ == paragraphs(parts, n),
        decreases rest.len(),
    {
        let i = find_blank(rest);
        let block = trim_in(take_chars(rest, i), &Class::White);
        proof {
            assert(rest@.take(rest@.len() as int) =~= rest@);
            assert(blocks(rest@)[0] == rest@.take(i as int));
            assert(parts[n as int] == parts.skip(n as int)[0]);
        }
        if block.len() > 0 {
            write_paragraph(&mut out, block);
        }
        if i == rest.len() {
            assert(parts.skip(n as int).len() == 1);
            assert(out@ == paragraphs(parts, (n + 1) as nat));
            return from_chars(&out);
        }
        proof {
            let more = blocks(rest@.skip(i + 2));
            assert(parts.skip(n as int) == seq![rest@.take(i as int)] + more);
            assert(parts.skip(n as int + 1) =~= more) by {
                assert(parts.skip(n as int + 1) =~= parts.skip(n as int).skip(1));
            }
            blocks_are_some(rest@.skip(i + 2));
            n = n + 1;
        }
        rest = skip_chars(rest, i + 2);
    }
}

proof fn blocks_are_some(s: Seq<char>)
    ensures
        blocks(s).len() > 0,
{
}

/// Syntax beyond CommonMark.
#[derive(Debug, Clone, Copy, PartialEq, Eq, Structural)]
pub struct Extensions {
    pub tables: bool,
    pub strikethrough: bool,
    pub task_lists: bool,
    pub footnotes: bool,
}

/// Kind of a piece of parsed Markdown.
#[derive(Debug, Clone, Copy, PartialEq, Eq, Structural)]
pub enum PieceKind {
    /// A block of raw HTML.
    Html,
    /// Raw HTML inside a paragraph.
    InlineHtml,
    Other,
}

/// The kinds of the pieces that a Markdown text is parsed into.
pub uninterp spec fn markdown_pieces(source: Seq<char>, extensions: Extensions) -> Seq<PieceKind>;

/// The HTML of a Markdown text, with those pieces of raw HTML taken as text that are marked.
pub uninterp spec fn markdown_html(
    source: Seq<char>,
    extensions: Extensions,
    as_text: Seq<bool>,
) -> Seq<char>;

/// `pulldown_cmark::Parser::new_ext`: the events of a Markdown text, each as the kind of raw HTML
/// that it is. They are a function of the text and the extensions alone.
#[verifier::external_body]
fn parse_markdown(source: &str, extensions: Extensions) -> (r: Vec<PieceKind>)
    ensures
        r@ == markdown_pieces(source@, extensions),
{
    let mut options = pulldown_cmark::Options::empty();
    options.set(pulldown_cmark::Options::ENABLE_TABLES, extensions.tables);
    options.set(pulldown_cmark::Options::ENABLE_STRIKETHROUGH, extensions.strikethrough);
    options.set(pulldown_cmark::Options::ENABLE_TASKLISTS, extensions.task_lists);
    options.set(pulldown_cmark::Options::ENABLE_FOOTNOTES, extensions.footnotes);
    pulldown_cmark::Parser::new_ext(source, options).map(|event| match event {
        pulldown_cmark::Event::Html(_) => PieceKind::Html,
        pulldown_cmark::Event::InlineHtml(_) => PieceKind::InlineHtml,
        _ => PieceKind::Other,
    }).collect()
}

/// `pulldown_cmark::html::push_html` over the events of a Markdown text, where an event of raw HTML
/// that is marked goes in as a text event, which is escaped. The HTML is a function of the text, the
/// extensions and the marks alone.
#[verifier::external_body]
fn render_markdown(source: &str, extensions: Extensions, as_text: &Vec<bool>) -> (r: String)
    requires
        as_text.len() == markdown_pieces(source@, extensions).len(),
    ensures
        r@ == markdown_html(source@, extensions, as_text@),
{
    let mut options = pulldown_cmark::Options::empty();
    options.set(pulldown_cmark::Options::ENABLE_TABLES, extensions.tables);
    options.set(pulldown_cmark::Options::ENABLE_STRIKETHROUGH, extensions.strikethrough);
    options.set(pulldown_cmark::Options::ENABLE_TASKLISTS, extensions.task_lists);
    options.set(pulldown_cmark::Options::ENABLE_FOOTNOTES, extensions.footnotes);
    let mut out = String::new();
    pulldown_cmark::html::push_html(&mut out, pulldown_cmark::Parser::new_ext(source, options).zip(as_text).map(|pair| match pair {
        (pulldown_cmark::Event::Html(raw), true) => pulldown_cmark::Event::Text(raw),
        (pulldown_cmark::Event::InlineHtml(raw), true) => pulldown_cmark::Event::Text(raw),
        (event, _) => event,
    }));
    out
}

/// The extensions that text imports have.
pub open spec fn import_extensions() -> Extensions {
    Extensions { tables: true, strikethrough: true, task_lists: true, footnotes: true }
}

/// Which pieces are raw HTML.
pub open spec fn raw_html(kinds: Seq<PieceKind>) -> Seq<bool> {
    Seq::new(kinds.len(), |i: int| kinds[i] != PieceKind::Other)
}

/// A Markdown text as XHTML: all raw HTML is taken as text.
pub open spec fn markdown_xhtml(source: Seq<char>) -> Seq<char> {
    markdown_html(
        source,
        import_extensions(),
        raw_html(markdown_pieces(source, import_extensions())),
    )
}

/// Which pieces of a Markdown text are taken as text: all raw HTML.
pub fn mark_raw_html(kinds: &Vec<PieceKind>) -> (marks: Vec<bool>)
    ensures
        marks@ == raw_html(kinds@),
{
    let mut marks: Vec<bool> = Vec::new();
    let mut i: usize = 0;
    while i < kinds.len()
        invariant
            i <= kinds.len(),
            marks@ =~= raw_html(kinds@).take(i as int),
        decreases kinds.len() - i,
    {
        marks.push(kinds[i] != PieceKind::Other);
        i += 1;
    }
    marks
}

/// Markdown to XHTML. Raw HTML is escaped to literal text: the device wants well-formed XHTML, and
/// arbitrary inline HTML could produce a document that it refuses to render.
pub fn markdown_to_xhtml(source: &str) -> (r: String)
    ensures
        r@ == markdown_xhtml(source@),
{
    let extensions = Extensions {
        tables: true,
        strikethrough: true,
        task_lists: true,
        footnotes: true,
    };
    let kinds = parse_markdown(source, extensions);
    let marks = mark_raw_html(&kinds);
    render_markdown(source, extensions, &marks)
}

/// Points readers at the package document.
pub const CONTAINER_XML: &'static str = r#"<?xml version="1.0" encoding="UTF-8"?>
<container version="1.0" xmlns="urn:oasis:names:tc:opendocument:xmlns:container">
  <rootfiles>
    <rootfile full-path="OEBPS/content.opf" media-type="application/oebps-package+xml"/>
  </rootfiles>
</container>
"#;

/// The package document before the identifier.
pub const OPF_START: &'static str = r#"<?xml version="1.0" encoding="UTF-8"?>
<package xmlns="http://www.idpf.org/2007/opf" version="3.0" unique-identifier="pub-id">
  <metadata xmlns:dc="http://purl.org/dc/elements/1.1/">
    <dc:identifier id="pub-id">urn:uuid:"#;

/// The package document between identifier and title.
pub const OPF_MIDDLE: &'static str = r#"</dc:identifier>
    <dc:title>"#;

/// The package document behind the title.
pub const OPF_END: &'static str = r#"</dc:title>
    <dc:language>en</dc:language>
    <meta property="dcterms:modified">2000-01-01T00:00:00Z</meta>
  </metadata>
  <manifest>
    <item id="nav" href="nav.xhtml" media-type="application/xhtml+xml" properties="nav"/>
    <item id="content" href="content.xhtml" media-type="application/xhtml+xml"/>
  </manifest>
  <spine>
    <itemref idref="content"/>
  </spine>
</package>
"#;

/// The nav document before the title.
pub const NAV_START: &'static str = r#"<?xml version="1.0" encoding="UTF-8"?>
<!DOCTYPE html>
<html xmlns="http://www.w3.org/1999/xhtml" xmlns:epub="http://www.idpf.org/2007/ops">
<head><title>"#;

/// The nav document between the title and the link.
pub const NAV_MIDDLE: &'static str = r#"</title></head>
<body>
<nav epub:type="toc"><ol><li><a href="content.xhtml">"#;

/// The nav document behind the link.
pub const NAV_END: &'static str = r#"</a></li></ol></nav>
</body>
</html>
"#;

/// The content document before the title.
pub const CONTENT_START: &'static str = r#"<?xml version="1.0" encoding="UTF-8"?>
<!DOCTYPE html>
<html xmlns="http://www.w3.org/1999/xhtml">
<head><title>"#;

/// The content document between title and body.
pub const CONTENT_MIDDLE: &'static str = r#"</title></head>
<body>
"#;

/// The content document behind the body.
pub const CONTENT_END: &'static str = r#"</body>
</html>
"#;

/// A text file of an archive.
pub open spec fn text_entry(path: Seq<char>, text: Seq<char>, stored: bool) -> EntryView {
    EntryView { path, data: Some(encode_utf8(text)), stored }
}

/// The files of an EPUB. The title goes in escaped.
pub open spec fn epub_entries(title: Seq<char>, body: Seq<char>, identifier: Seq<char>) -> Seq<
    EntryView,
> {
    let t = escaped(title);
    seq![
        text_entry("mimetype"@, "application/epub+zip"@, true),
        text_entry("META-INF/container.xml"@, CONTAINER_XML@, false),
        text_entry(
            "OEBPS/content.opf"@,
            OPF_START@ + identifier + OPF_MIDDLE@ + t + OPF_END@,
            false,
        ),
        text_entry("OEBPS/nav.xhtml"@, NAV_START@ + t + NAV_MIDDLE@ + t + NAV_END@, false),
        text_entry(
            "OEBPS/content.xhtml"@,
            CONTENT_START@ + t + CONTENT_MIDDLE@ + body + CONTENT_END@,
            false,
        ),
    ]
}

proof fn utf8_is_short(s: Seq<char>)
    ensures
        encode_utf8(s).len() <= 4 * s.len(),
    decreases s.len(),
{
    if s.len() > 0 {
        utf8_is_short(s.drop_first());
    }
}

proof fn epub_names_are_fine(title: Seq<char>, body: Seq<char>, identifier: Seq<char>)
    ensures
        names_fit(epub_entries(title, body, identifier)),
        names_differ(epub_entries(title, body, identifier)),
{
    reveal_strlit("mimetype");
    reveal_strlit("META-INF/container.xml");
    reveal_strlit("OEBPS/content.opf");
    reveal_strlit("OEBPS/nav.xhtml");
    reveal_strlit("OEBPS/content.xhtml");
    let entries = epub_entries(title, body, identifier);
    assert forall|i: int| 0 <= i < entries.len() implies encode_utf8(
        zip_name(#[trigger] entries[i]),
    ).len() <= 0xffff by {
        utf8_is_short(zip_name(entries[i]));
    }
    assert forall|i: int, j: int| 0 <= i < j < entries.len() implies zip_name(#[trigger] entries[i])
        != zip_name(#[trigger] entries[j]) by {
        assert("mimetype"@.len() == 8);
        assert("META-INF/container.xml"@.len() == 22);
        assert("OEBPS/content.opf"@.len() == 17);
        assert("OEBPS/nav.xhtml"@.len() == 15);
        assert("OEBPS/content.xhtml"@.len() == 19);
    }
}

fn text_file(path: &str, text: &str, stored: bool) -> (r: ArchiveEntry)
    ensures
        r.deep_view() == text_entry(path@, text@, stored),
{
    ArchiveEntry {
        path: path.to_owned(),
        data: Some(vstd::slice::slice_to_vec(text.as_bytes())),
        stored,
    }
}

/// Packs an EPUB with the given title, XHTML body and identifier.
pub fn build_epub(title: &str, body_xhtml: &str, identifier: &str) -> (r: Result<Vec<u8>, Error>)
    ensures
        fits_zip(epub_entries(title@, body_xhtml@, identifier@)) ==> (r matches Ok(bytes)
            && zip_listing(bytes@) == Ok::<Seq<SlotView>, Seq<char>>(
            zip_of(epub_entries(title@, body_xhtml@, identifier@)),
        )),
        all_packable(epub_entries(title@, body_xhtml@, identifier@)) ==> r is Ok,
        any_oversized(epub_entries(title@, body_xhtml@, identifier@)) ==> r is Err,
        r matches Err(e) ==> e is Epub || e is Io,
{
    let title_text = escape_xml(title);
    let t = title_text.as_str();
    let opf = cat5(OPF_START, identifier, OPF_MIDDLE, t, OPF_END);
    let nav = cat5(NAV_START, t, NAV_MIDDLE, t, NAV_END);
    let content = cat5(CONTENT_START, t, CONTENT_MIDDLE, body_xhtml, CONTENT_END);
    let mut entries: Vec<ArchiveEntry> = Vec::new();
    // The media type comes first and uncompressed, so that its bytes sit at a fixed offset.
    entries.push(text_file("mimetype", "application/epub+zip", true));
    entries.push(text_file("META-INF/container.xml", CONTAINER_XML, false));
    entries.push(text_file("OEBPS/content.opf", opf.as_str(), false));
    entries.push(text_file("OEBPS/nav.xhtml", nav.as_str(), false));
    entries.push(text_file("OEBPS/content.xhtml", content.as_str(), false));
    proof {
        assert(entries.deep_view() =~= epub_entries(title@, body_xhtml@, identifier@));
        epub_names_are_fine(title@, body_xhtml@, identifier@);
    }
    match write_zip(&entries) {
        Ok(bytes) => Ok(bytes),
        Err(ZipFault::Refused(message)) => Err(Error::Epub(message)),
        Err(ZipFault::Unwritten(message)) => Err(Error::Io(message)),
    }
}

/// The XHTML body of a text import.
pub open spec fn body_of(kind: TextKind, source: Seq<char>) -> Seq<char> {
    match kind {
        TextKind::Markdown => markdown_xhtml(source),
        TextKind::Plain => plain_xhtml(source),
    }
}

/// Whether bytes are an EPUB of the given text, under some fresh identifier.
pub open spec fn is_epub_of(
    bytes: Seq<u8>,
    title: Seq<char>,
    kind: TextKind,
    source: Seq<char>,
) -> bool {
    exists|identifier: Seq<char>| #[trigger]
        is_uuid(identifier) && zip_listing(bytes) == Ok::<Seq<SlotView>, Seq<char>>(
            zip_of(epub_entries(title, body_of(kind, source), identifier)),
        )
}

/// Converts Markdown or plain text into EPUB bytes. `title` becomes the EPUB title.
pub fn text_to_epub(title: &str, kind: TextKind, source: &str) -> (r: Result<Vec<u8>, Error>)
    ensures
        (forall|identifier: Seq<char>| #[trigger]
            is_uuid(identifier) ==> fits_zip(
                epub_entries(title@, body_of(kind, source@), identifier),
            )) ==> (r matches Ok(bytes) && is_epub_of(bytes@, title@, kind, source@)),
        (forall|identifier: Seq<char>| #[trigger]
            is_uuid(identifier) ==> all_packable(
                epub_entries(title@, body_of(kind, source@), identifier),
            )) ==> r is Ok,
        (forall|identifier: Seq<char>| #[trigger]
            is_uuid(identifier) ==> any_oversized(
                epub_entries(title@, body_of(kind, source@), identifier),
            )) ==> r is Err,
        r matches Err(e) ==> e is Epub || e is Io,
{
    let body = match kind {
        TextKind::Markdown => markdown_to_xhtml(source),
        TextKind::Plain => plain_text_to_xhtml(source),
    };
    let identifier = fresh_uuid();
    build_epub(title, body.as_str(), identifier.as_str())
}

/// Escaped text holds no markup: no quotes and no angle brackets.
pub proof fn escaped_text_has_no_markup(s: Seq<char>)
    ensures
        forall|i: int|
            0 <= i < escaped(s).len() ==> (#[trigger] escaped(s)[i]) != '<' && escaped(s)[i] != '>'
                && escaped(s)[i] != '"' && escaped(s)[i] != '\'',
    decreases s.len(),
{
    if s.len() > 0 {
        escaped_text_has_no_markup(s.drop_last());
        let before = escaped(s.drop_last());
        let last = escape_char(s.last());
        reveal_strlit("&amp;");
        reveal_strlit("&lt;");
        reveal_strlit("&gt;");
        reveal_strlit("&quot;");
        reveal_strlit("&apos;");
        assert forall|i: int| 0 <= i < last.len() implies (#[trigger] last[i]) != '<' && last[i]
            != '>' && last[i] != '"' && last[i] != '\'' by {}
        assert forall|i: int| 0 <= i < escaped(s).len() implies (#[trigger] escaped(s)[i]) != '<'
            && escaped(s)[i] != '>' && escaped(s)[i] != '"' && escaped(s)[i] != '\'' by {
            if i < before.len() {
                assert(escaped(s)[i] == before[i]);
            } else {
                assert(escaped(s)[i] == last[i - before.len()]);
            }
        }
    }
}

/// The text that an XML reader makes of escaped text.
pub open spec fn unescaped(s: Seq<char>) -> Seq<char>
    decreases s.len(),
{
    if s.len() == 0 {
        Seq::empty()
    } else if starts_with(s, seq!['&', 'a', 'm', 'p', ';']) {
        seq!['&'] + unescaped(s.skip(5))
    } else if starts_with(s, seq!['&', 'l', 't', ';']) {
        seq!['<'] + unescaped(s.skip(4))
    } else if starts_with(s, seq!['&', 'g', 't', ';']) {
        seq!['>'] + unescaped(s.skip(4))
    } else if starts_with(s, seq!['&', 'q', 'u', 'o', 't', ';']) {
        seq!['"'] + unescaped(s.skip(6))
    } else if starts_with(s, seq!['&', 'a', 'p', 'o', 's', ';']) {
        seq!['\''] + unescaped(s.skip(6))
    } else {
        seq![s[0]] + unescaped(s.skip(1))
    }
}

proof fn escaped_from_front(s: Seq<char>)
    requires
        s.len() > 0,
    ensures
        escaped(s) == escape_char(s[0]) + escaped(s.skip(1)),
    decreases s.len(),
{
    if s.len() == 1 {
        assert(s.drop_last() =~= Seq::empty());
        assert(s.skip(1) =~= Seq::empty());
        assert(escaped(s) =~= escape_char(s[0]) + escaped(s.skip(1)));
    } else {
        escaped_from_front(s.drop_last());
        assert(s.drop_last().skip(1) =~= s.skip(1).drop_last());
        assert(s.skip(1).last() == s.last());
        assert(escaped(s) =~= escape_char(s[0]) + escaped(s.skip(1)));
    }
}

proof fn one_character_is_unescaped(c: char, rest: Seq<char>)
    ensures
        unescaped(escape_char(c) + rest) == seq![c] + unescaped(rest),
{
    reveal_strlit("&amp;");
    reveal_strlit("&lt;");
    reveal_strlit("&gt;");
    reveal_strlit("&quot;");
    reveal_strlit("&apos;");
    let e = escape_char(c);
    let s = e + rest;
    assert(s.skip(e.len() as int) =~= rest);
    assert(s[0] == e[0]);
    if c == '&' {
        assert(s.take(5) =~= seq!['&', 'a', 'm', 'p', ';']);
    } else if c == '<' {
        assert(s[1] == 'l');
        assert(s.len() >= 5 ==> s.take(5)[1] == 'l');
        assert(s.take(4) =~= seq!['&', 'l', 't', ';']);
    } else if c == '>' {
        assert(s[1] == 'g');
        assert(s.len() >= 5 ==> s.take(5)[1] == 'g');
        assert(s.take(4)[1] == 'g');
        assert(s.take(4) =~= seq!['&', 'g', 't', ';']);
    } else if c == '"' {
        assert(s.take(5)[1] == 'q');
        assert(s.take(4)[1] == 'q');
        assert(s.take(6) =~= seq!['&', 'q', 'u', 'o', 't', ';']);
    } else if c == '\'' {
        assert(s.take(5)[2] == 'p');
        assert(s.take(4)[1] == 'a');
        assert(s.take(6)[1] == 'a');
        assert(s.take(6) =~= seq!['&', 'a', 'p', 'o', 's', ';']);
    } else {
        assert(s[0] == c);
        assert(s.len() >= 4 ==> s.take(4)[0] == c);
        assert(s.len() >= 5 ==> s.take(5)[0] == c);
        assert(s.len() >= 6 ==> s.take(6)[0] == c);
    }
}

/// Escaping loses nothing: a reader gets the text back.
pub proof fn escaping_is_undone_by_readers(s: Seq<char>)
    ensures
        unescaped(escaped(s)) == s,
    decreases s.len(),
{
    if s.len() > 0 {
        escaped_from_front(s);
        one_character_is_unescaped(s[0], escaped(s.skip(1)));
        escaping_is_undone_by_readers(s.skip(1));
        assert(seq![s[0]] + s.skip(1) =~= s);
    } else {
        assert(s =~= Seq::empty());
    }
}

/// The media type is the first file of every EPUB, and is not compressed.
pub proof fn the_media_type_comes_first(title: Seq<char>, body: Seq<char>, identifier: Seq<char>)
    ensures
        epub_entries(title, body, identifier).len() > 0,
        epub_entries(title, body, identifier)[0] == text_entry(
            "mimetype"@,
            "application/epub+zip"@,
            true,
        ),
{
}

/// Escaping goes character by character: the five that mean something to XML are replaced by their
/// names, and every other one stays.
pub proof fn five_characters_are_escaped(s: Seq<char>, c: char)
    ensures
        escaped(s.push('&')) == escaped(s) + "&amp;"@,
        escaped(s.push('<')) == escaped(s) + "&lt;"@,
        escaped(s.push('>')) == escaped(s) + "&gt;"@,
        escaped(s.push('"')) == escaped(s) + "&quot;"@,
        escaped(s.push('\'')) == escaped(s) + "&apos;"@,
        c != '&' && c != '<' && c != '>' && c != '"' && c != '\'' ==> escaped(s.push(c)) == escaped(
            s,
        ).push(c),
        escaped(Seq::empty()) == Seq::<char>::empty(),
{
    assert(s.push('&').drop_last() =~= s);
    assert(s.push('<').drop_last() =~= s);
    assert(s.push('>').drop_last() =~= s);
    assert(s.push('"').drop_last() =~= s);
    assert(s.push('\'').drop_last() =~= s);
    assert(s.push(c).drop_last() =~= s);
    assert(escaped(s) + seq![c] =~= escaped(s).push(c));
}

/// A carriage return before a newline goes, and nothing else does.
pub proof fn newlines_become_plain(c: char, rest: Seq<char>)
    ensures
        unix_newlines(seq!['\r', '\n'] + rest) == seq!['\n'] + unix_newlines(rest),
        c != '\r' || rest.len() == 0 || rest[0] != '\n' ==> unix_newlines(seq![c] + rest) == seq![c]
            + unix_newlines(rest),
        unix_newlines(Seq::empty()) == Seq::<char>::empty(),
{
    assert((seq!['\r', '\n'] + rest).skip(2) =~= rest);
    assert((seq![c] + rest).skip(1) =~= rest);
}

proof fn texts_without_returns_stay(s: Seq<char>)
    requires
        !s.contains('\r'),
    ensures
        unix_newlines(s) == s,
    decreases s.len(),
{
    if s.len() > 0 {
        let rest = s.skip(1);
        assert(s.contains(s[0]));
        assert(!rest.contains('\r')) by {
            if rest.contains('\r') {
                let i = choose|i: int| 0 <= i < rest.len() && rest[i] == '\r';
                assert(s[i + 1] == '\r');
            }
        }
        texts_without_returns_stay(rest);
        assert(seq![s[0]] + rest =~= s);
    }
}

proof fn blank_lines_are_found(s: Seq<char>, i: int, p: int)
    requires
        0 <= i <= p,
        p + 1 < s.len(),
        s[p] == '\n' && s[p + 1] == '\n',
        forall|k: int| i <= k < p ==> !(#[trigger] s[k] == '\n' && s[k + 1] == '\n'),
    ensures
        blank_from(s, i) == p,
    decreases p - i,
{
    if i < p {
        assert(!(s[i] == '\n' && s[i + 1] == '\n'));
        blank_lines_are_found(s, i + 1, p);
    }
}

proof fn no_blank_line_is_found(s: Seq<char>, i: int)
    requires
        0 <= i <= s.len(),
        forall|k: int| i <= k < s.len() - 1 ==> !(#[trigger] s[k] == '\n' && s[k + 1] == '\n'),
    ensures
        blank_from(s, i) == s.len(),
    decreases s.len() - i,
{
    if i + 1 < s.len() {
        assert(!(s[i] == '\n' && s[i + 1] == '\n'));
        no_blank_line_is_found(s, i + 1);
    }
}

proof fn paragraphs_from_the_front(first: Seq<char>, rest: Seq<Seq<char>>, n: nat)
    requires
        n <= rest.len(),
    ensures
        paragraphs(seq![first] + rest, n + 1) == if trim(first, Class::White).len() == 0 {
            paragraphs(rest, n)
        } else {
            paragraph(trim(first, Class::White)) + paragraphs(rest, n)
        },
    decreases n,
{
    let all = seq![first] + rest;
    let block = trim(first, Class::White);
    let head = if block.len() == 0 {
        Seq::empty()
    } else {
        paragraph(block)
    };
    if n == 0 {
        assert(paragraphs(all, 0) =~= Seq::empty());
        assert(all[0] == first);
        assert(paragraphs(rest, 0) =~= Seq::empty());
        assert(paragraphs(all, 1) =~= head);
        assert(head + Seq::empty() =~= head);
    } else {
        paragraphs_from_the_front(first, rest, (n - 1) as nat);
        assert(all[n as int] == rest[n - 1]);
        let last = trim(rest[n - 1], Class::White);
        let before = paragraphs(rest, (n - 1) as nat);
        assert(head + (before + paragraph(last)) =~= (head + before) + paragraph(last));
        assert(paragraphs(all, n + 1) =~= if block.len() == 0 {
            paragraphs(rest, n)
        } else {
            paragraph(block) + paragraphs(rest, n)
        });
    }
}

/// A plain text becomes one paragraph for each block between empty lines, in order: its lines are
/// escaped, and stay lines.
pub proof fn blocks_become_paragraphs(block: Seq<char>, rest: Seq<char>)
    requires
        block.len() > 0,
        !Class::White.holds(block[0]),
        !Class::White.holds(block.last()),
        !block.contains('\r'),
        !rest.contains('\r'),
        forall|k: int| 0 <= k < block.len() - 1 ==> !(#[trigger] block[k] == '\n' && block[k + 1]
            == '\n'),
    ensures
        ({
            let body = lines(block);
            let shown = "<p>"@ + join(
                Seq::new(body.len(), |i: int| escaped(body[i])),
                "<br/>\n"@,
            ) + "</p>\n"@;
            &&& plain_xhtml(block + seq!['\n', '\n'] + rest) == shown + plain_xhtml(rest)
            &&& plain_xhtml(block) == shown
        }),
{
    let s = block + seq!['\n', '\n'] + rest;
    let none = Seq::<char>::empty();
    let nothing = Seq::<Seq<char>>::empty();
    let at = block.len() as int;
    assert(!s.contains('\r')) by {
        if s.contains('\r') {
            let i = choose|i: int| 0 <= i < s.len() && s[i] == '\r';
            if i < at {
                assert(block[i] == '\r');
            } else {
                assert(rest[i - at - 2] == '\r');
            }
        }
    }
    texts_without_returns_stay(s);
    texts_without_returns_stay(block);
    texts_without_returns_stay(rest);
    assert forall|k: int| 0 <= k < at implies !(#[trigger] s[k] == '\n' && s[k + 1] == '\n') by {
        if k < at - 1 {
            assert(s[k] == block[k] && s[k + 1] == block[k + 1]);
        } else {
            assert(s[k] == block.last());
        }
    }
    blank_lines_are_found(s, 0, at);
    no_blank_line_is_found(block, 0);
    assert(s.take(at) =~= block);
    assert(s.skip(at + 2) =~= rest);
    assert(blocks(s) == seq![block] + blocks(rest));
    assert(blocks(block) =~= seq![block] + nothing);
    edges_are_trimmed(none, block, none, Class::White);
    assert(none + block + none =~= block);
    paragraphs_from_the_front(block, blocks(rest), blocks(rest).len());
    paragraphs_from_the_front(block, nothing, 0);
    assert(paragraphs(nothing, 0) =~= none);
    assert(paragraph(block) + none =~= paragraph(block));
}

/// Raw HTML in Markdown is taken as text, block or inline, and nothing else is.
pub proof fn all_raw_html_is_taken_as_text(kinds: Seq<PieceKind>, i: int)
    requires
        0 <= i < kinds.len(),
    ensures
        raw_html(kinds).len() == kinds.len(),
        raw_html(kinds)[i] <==> kinds[i] == PieceKind::Html || kinds[i] == PieceKind::InlineHtml,
{
}

/// A Markdown text is read as Markdown, with tables, struck text, task lists and footnotes, and a plain
/// text as it is.
pub proof fn texts_are_read_as_what_they_are(source: Seq<char>, extensions: Extensions)
    requires
        extensions.tables && extensions.strikethrough && extensions.task_lists
            && extensions.footnotes,
    ensures
        body_of(TextKind::Markdown, source) == markdown_html(
            source,
            extensions,
            raw_html(markdown_pieces(source, extensions)),
        ),
        body_of(TextKind::Plain, source) == plain_xhtml(source),
{
}

/// An EPUB is its media type, its container, its package, its navigation and its content, in this
/// order. The package holds the identifier and the title, the navigation the title, and the content the
/// title and the body; a title is escaped wherever it stands.
pub proof fn epubs_hold_their_title_and_body(
    title: Seq<char>,
    body: Seq<char>,
    identifier: Seq<char>,
)
    ensures
        ({
            let entries = epub_entries(title, body, identifier);
            &&& entries.len() == 5
            &&& entries[0].path == "mimetype"@ && entries[0].stored && entries[0].data == Some(
                encode_utf8("application/epub+zip"@),
            )
            &&& entries[1].path == "META-INF/container.xml"@ && entries[1].data == Some(
                encode_utf8(CONTAINER_XML@),
            )
            &&& entries[2].path == "OEBPS/content.opf"@ && entries[2].data == Some(
                encode_utf8(OPF_START@ + identifier + OPF_MIDDLE@ + escaped(title) + OPF_END@),
            )
            &&& entries[3].path == "OEBPS/nav.xhtml"@ && entries[3].data == Some(
                encode_utf8(
                    NAV_START@ + escaped(title) + NAV_MIDDLE@ + escaped(title) + NAV_END@,
                ),
            )
            &&& entries[4].path == "OEBPS/content.xhtml"@ && entries[4].data == Some(
                encode_utf8(
                    CONTENT_START@ + escaped(title) + CONTENT_MIDDLE@ + body + CONTENT_END@,
                ),
            )
            &&& forall|i: int| 1 <= i < 5 ==> !(#[trigger] entries[i]).stored
        }),
{
}

} // verus!
