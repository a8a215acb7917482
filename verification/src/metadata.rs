//! The metadata and content files of items.
use vstd::prelude::*;
use vstd::utf8::encode_utf8;
use crate::error::{agrees, Error, ErrorView};
use crate::json::{
    all_exact, all_writable, can_be_printed, is_built, is_exact, is_exact_document,
    is_in_read_form, is_writable, may_hold_floats, json_of, json_text, list_text,
    print_list, reads_as, reads_back, write_json, Field, FieldView, Json, JsonView,
};
use crate::number::{decimal_i, show_i64, shown_integer_reads_back};
use crate::pathmap::{keys, put, put_sets_one_key, value_of, value_of_at, value_of_is_keyed, PathMap};
use crate::text::{ascending, cat, lex_lt, str_eq};
use crate::xochitl::{Item, ItemKind, ItemView};

verus! {

/// The item that metadata and content describe. Unknown item types describe none.
pub open spec fn item_of(
    uuid: Seq<char>,
    metadata: JsonView,
    content: Option<JsonView>,
    size_bytes: Option<u64>,
) -> Option<ItemView> {
    let described = |kind: ItemKind|
        ItemView {
            uuid,
            visible_name: match metadata.some_text("visibleName"@) {
                Some(name) => name,
                None => uuid,
            },
            parent: match metadata.text("parent"@) {
                Some(parent) => parent,
                None => ""@,
            },
            kind,
            file_type: if kind == ItemKind::Folder {
                None
            } else {
                content_type(content)
            },
            created_time: metadata.lenient_integer("createdTime"@),
            last_modified: metadata.lenient_integer("lastModified"@),
            size_bytes: if kind == ItemKind::Folder {
                None
            } else {
                size_bytes
            },
        };
    if metadata.text("type"@) == Some("DocumentType"@) {
        Some(described(ItemKind::Document))
    } else if metadata.text("type"@) == Some("CollectionType"@) {
        Some(described(ItemKind::Folder))
    } else {
        None
    }
}

/// The file type that content declares. A native notebook declares none on older firmware; without
/// content nothing is known.
pub open spec fn content_type(content: Option<JsonView>) -> Option<Seq<char>> {
    match content {
        Some(json) => Some(
            match json.some_text("fileType"@) {
                Some(t) => t,
                None => "notebook"@,
            },
        ),
        None => None,
    }
}

/// The file type that content declares.
pub fn declared_type(content: Option<&Json>) -> (r: Option<&str>)
    ensures
        r.deep_view() == content_type(content.deep_view()),
{
    match content {
        Some(json) => Some(
            match json.some_text("fileType") {
                Some(t) => t,
                None => "notebook",
            },
        ),
        None => None,
    }
}

/// Builds an [`Item`] from parsed metadata and optional content. Gives `None` for unknown item
/// types and for metadata that is no object.
pub fn item_from_metadata(
    uuid: &str,
    metadata: &Json,
    content: Option<&Json>,
    size_bytes: Option<u64>,
) -> (r: Option<Item>)
    ensures
        r.deep_view() == item_of(
            uuid@,
            metadata.deep_view(),
            content.deep_view(),
            size_bytes,
        ),
{
    let kind = match metadata.text("type") {
        Some(t) => {
            if str_eq(t, "DocumentType") {
                ItemKind::Document
            } else if str_eq(t, "CollectionType") {
                proof {
                    reveal_strlit("DocumentType");
                    reveal_strlit("CollectionType");
                }
                ItemKind::Folder
            } else {
                return None;
            }
        },
        None => {
            return None;
        },
    };
    let visible_name = match metadata.some_text("visibleName") {
        Some(name) => name,
        None => uuid,
    };
    let parent = match metadata.text("parent") {
        Some(parent) => parent,
        None => "",
    };
    let is_document = kind == ItemKind::Document;
    Some(
        Item {
            uuid: uuid.to_owned(),
            visible_name: visible_name.to_owned(),
            parent: parent.to_owned(),
            kind,
            file_type: if is_document {
                match declared_type(content) {
                    Some(t) => Some(t.to_owned()),
                    None => None,
                }
            } else {
                None
            },
            created_time: metadata.lenient_i64("createdTime"),
            last_modified: metadata.lenient_i64("lastModified"),
            size_bytes: if is_document {
                size_bytes
            } else {
                None
            },
        },
    )
}

/// The metadata fields of a new document.
pub open spec fn document_fields(name: Seq<char>, parent: Seq<char>, now_ms: i64) -> Seq<
    (Seq<char>, FieldView),
> {
    let now = decimal_i(now_ms as int);
    let s = Seq::<(Seq<char>, FieldView)>::empty();
    let s = put(s, "createdTime"@, FieldView::Text(now));
    let s = put(s, "lastModified"@, FieldView::Text(now));
    let s = put(s, "lastOpened"@, FieldView::Text("0"@));
    let s = put(s, "lastOpenedPage"@, FieldView::Integer(0));
    let s = put(s, "new"@, FieldView::Bool(true));
    let s = put(s, "parent"@, FieldView::Text(parent));
    let s = put(s, "pinned"@, FieldView::Bool(false));
    let s = put(s, "source"@, FieldView::Text(""@));
    let s = put(s, "type"@, FieldView::Text("DocumentType"@));
    put(s, "visibleName"@, FieldView::Text(name))
}

/// The metadata fields of a new folder.
pub open spec fn folder_fields(name: Seq<char>, parent: Seq<char>, now_ms: i64) -> Seq<
    (Seq<char>, FieldView),
> {
    let now = decimal_i(now_ms as int);
    let s = Seq::<(Seq<char>, FieldView)>::empty();
    let s = put(s, "createdTime"@, FieldView::Text(now));
    let s = put(s, "lastModified"@, FieldView::Text(now));
    let s = put(s, "metadatamodified"@, FieldView::Bool(false));
    let s = put(s, "modified"@, FieldView::Bool(false));
    let s = put(s, "parent"@, FieldView::Text(parent));
    let s = put(s, "pinned"@, FieldView::Bool(false));
    let s = put(s, "synced"@, FieldView::Bool(false));
    let s = put(s, "type"@, FieldView::Text("CollectionType"@));
    let s = put(s, "version"@, FieldView::Integer(0));
    put(s, "visibleName"@, FieldView::Text(name))
}

proof fn put_keeps_values(s: Seq<(Seq<char>, FieldView)>, key: Seq<char>, value: FieldView)
    ensures
        all_exact(s) && is_exact(value) ==> all_exact(put(s, key, value)),
        all_writable(s) && is_writable(value) ==> all_writable(put(s, key, value)),
    decreases s.len(),
{
    if s.len() > 0 {
        let rest = s.drop_last();
        put_keeps_values(rest, key, value);
        if all_exact(s) {
            assert(is_exact(s[s.len() - 1].1));
            assert forall|i: int| 0 <= i < rest.len() implies is_exact(#[trigger] rest[i].1) by {
                assert(is_exact(s[i].1));
            }
        }
        if all_writable(s) {
            assert(is_writable(s[s.len() - 1].1));
            assert forall|i: int| 0 <= i < rest.len() implies is_writable(
                #[trigger] rest[i].1,
            ) by {
                assert(is_writable(s[i].1));
            }
        }
    }
}

proof fn put_adds_one_value(s: Seq<(Seq<char>, FieldView)>, key: Seq<char>, value: FieldView)
    ensures
        forall|i: int|
            0 <= i < put(s, key, value).len() ==> (#[trigger] put(s, key, value)[i]).1 == value
                || exists|j: int|
                0 <= j < s.len() && (#[trigger] s[j]).1 == put(s, key, value)[i].1,
    decreases s.len(),
{
    if s.len() > 0 {
        let rest = s.drop_last();
        put_adds_one_value(rest, key, value);
        assert forall|i: int| 0 <= i < put(s, key, value).len() && put(s, key, value)[i].1
            != value implies exists|j: int|
            0 <= j < s.len() && (#[trigger] s[j]).1 == (#[trigger] put(s, key, value)[i]).1 by {
            let x = put(s, key, value)[i].1;
            if key != s.last().0 && lex_lt(key, s.last().0) {
                if i < put(rest, key, value).len() {
                    assert(put(rest, key, value)[i].1 == x);
                    let j = choose|j: int| 0 <= j < rest.len() && (#[trigger] rest[j]).1 == x;
                    assert(s[j].1 == x);
                } else {
                    assert(s[s.len() - 1].1 == x);
                }
            } else {
                assert(s[i].1 == x);
            }
        }
    }
}

pub(crate) fn assign(fields: &mut PathMap<Field>, name: &str, value: Field)
    requires
        old(fields).wf(),
    ensures
        final(fields).wf(),
        final(fields).pairs() == put(old(fields).pairs(), name@, value.deep_view()),
        all_exact(old(fields).pairs()) && is_exact(value.deep_view()) ==> all_exact(
            final(fields).pairs(),
        ),
        all_writable(old(fields).pairs()) && is_writable(value.deep_view()) ==> all_writable(
            final(fields).pairs(),
        ),
{
    proof {
        put_keeps_values(fields.pairs(), name@, value.deep_view());
    }
    fields.insert(name.to_owned(), value);
}

fn write_exact(fields: &PathMap<Field>) -> (r: String)
    requires
        fields.wf(),
        all_exact(fields.pairs()),
    ensures
        json_text(fields.pairs()) == Ok::<Seq<char>, Seq<char>>(r@),
        json_of(encode_utf8(r@)) == Ok::<JsonView, Seq<char>>(
            JsonView::Object(fields.pairs()),
        ),
{
    match write_json(fields) {
        Ok(text) => text,
        Err(_) => vstd::pervasive::unreached(),
    }
}

/// Metadata for a new document.
pub fn document_metadata_json(visible_name: &str, parent_uuid: &str, now_ms: i64) -> (r: String)
    ensures
        json_text(document_fields(visible_name@, parent_uuid@, now_ms)) == Ok::<Seq<char>, Seq<char>>(
            r@,
        ),
        json_of(encode_utf8(r@)) == Ok::<JsonView, Seq<char>>(
            JsonView::Object(document_fields(visible_name@, parent_uuid@, now_ms)),
        ),
{
    let mut fields: PathMap<Field> = PathMap::new();
    assign(&mut fields, "createdTime", Field::Text(show_i64(now_ms)));
    assign(&mut fields, "lastModified", Field::Text(show_i64(now_ms)));
    assign(&mut fields, "lastOpened", Field::Text("0".to_owned()));
    assign(&mut fields, "lastOpenedPage", Field::Integer(0));
    assign(&mut fields, "new", Field::Bool(true));
    assign(&mut fields, "parent", Field::Text(parent_uuid.to_owned()));
    assign(&mut fields, "pinned", Field::Bool(false));
    assign(&mut fields, "source", Field::Text("".to_owned()));
    assign(&mut fields, "type", Field::Text("DocumentType".to_owned()));
    assign(&mut fields, "visibleName", Field::Text(visible_name.to_owned()));
    write_exact(&fields)
}

/// Metadata for a new folder.
pub fn folder_metadata_json(visible_name: &str, parent_uuid: &str, now_ms: i64) -> (r: String)
    ensures
        json_text(folder_fields(visible_name@, parent_uuid@, now_ms)) == Ok::<Seq<char>, Seq<char>>(
            r@,
        ),
        json_of(encode_utf8(r@)) == Ok::<JsonView, Seq<char>>(
            JsonView::Object(folder_fields(visible_name@, parent_uuid@, now_ms)),
        ),
{
    let mut fields: PathMap<Field> = PathMap::new();
    assign(&mut fields, "createdTime", Field::Text(show_i64(now_ms)));
    assign(&mut fields, "lastModified", Field::Text(show_i64(now_ms)));
    assign(&mut fields, "metadatamodified", Field::Bool(false));
    assign(&mut fields, "modified", Field::Bool(false));
    assign(&mut fields, "parent", Field::Text(parent_uuid.to_owned()));
    assign(&mut fields, "pinned", Field::Bool(false));
    assign(&mut fields, "synced", Field::Bool(false));
    assign(&mut fields, "type", Field::Text("CollectionType".to_owned()));
    assign(&mut fields, "version", Field::Integer(0));
    assign(&mut fields, "visibleName", Field::Text(visible_name.to_owned()));
    write_exact(&fields)
}

/// The text of an object.
pub open spec fn object_text(fields: Seq<(Seq<char>, FieldView)>) -> Seq<char> {
    json_text(fields)->Ok_0
}

/// The text of an empty object.
pub open spec fn no_fields() -> Seq<char> {
    object_text(Seq::empty())
}

/// The text of an empty list.
pub open spec fn no_items() -> Seq<char> {
    list_text(Seq::empty())->Ok_0
}

/// Where the page list of a new document comes from.
pub open spec fn page_origin() -> Seq<(Seq<char>, FieldView)> {
    let s = Seq::<(Seq<char>, FieldView)>::empty();
    let s = put(s, "timestamp"@, FieldView::Text("1:0"@));
    put(s, "value"@, FieldView::Integer((-1) as i64))
}

/// The page list of a new document.
pub open spec fn page_list() -> Seq<(Seq<char>, FieldView)> {
    let s = Seq::<(Seq<char>, FieldView)>::empty();
    let s = put(s, "original"@, FieldView::Raw(object_text(page_origin())));
    put(s, "pages"@, FieldView::Raw(no_items()))
}

/// The content fields of a new document.
pub open spec fn content_fields(file_type: Seq<char>) -> Seq<(Seq<char>, FieldView)> {
    let s = Seq::<(Seq<char>, FieldView)>::empty();
    let s = put(s, "cPages"@, FieldView::Raw(object_text(page_list())));
    let s = put(s, "coverPageNumber"@, FieldView::Integer(0));
    let s = put(s, "documentMetadata"@, FieldView::Raw(no_fields()));
    let s = put(s, "extraMetadata"@, FieldView::Raw(no_fields()));
    let s = put(s, "fontName"@, FieldView::Text(""@));
    let s = put(s, "formatVersion"@, FieldView::Integer(2));
    let s = put(s, "lineHeight"@, FieldView::Integer((-1) as i64));
    let s = put(s, "margins"@, FieldView::Integer(100));
    let s = put(s, "orientation"@, FieldView::Text("portrait"@));
    let s = put(s, "pageCount"@, FieldView::Integer(0));
    let s = put(s, "pageTags"@, FieldView::Raw(no_items()));
    let s = put(s, "sizeInBytes"@, FieldView::Text("0"@));
    let s = put(s, "textAlignment"@, FieldView::Text("left"@));
    let s = put(s, "textScale"@, FieldView::Integer(1));
    put(s, "fileType"@, FieldView::Text(file_type))
}

/// Whatever was read can be written again; and it is read back as it was, if it holds no
/// floating-point numbers.
pub proof fn read_documents_are_written_again(bytes: Seq<u8>, json: JsonView)
    requires
        json_of(bytes) == Ok::<JsonView, Seq<char>>(json),
        is_in_read_form(json),
    ensures
        can_be_printed(json),
        !may_hold_floats(json) ==> is_exact_document(json),
{
    if let JsonView::Object(fields) = json {
        assert forall|i: int| 0 <= i < fields.len() implies is_writable(#[trigger] fields[i].1) && (
        !may_hold_floats(json) ==> is_exact(fields[i].1)) by {
            value_of_at(fields, i);
            if let FieldView::Raw(raw) = fields[i].1 {
                assert(reads_as(bytes, fields[i].0, raw));
            }
        }
    }
}

fn write_writable(fields: &PathMap<Field>) -> (r: String)
    requires
        fields.wf(),
        all_writable(fields.pairs()),
    ensures
        json_text(fields.pairs()) == Ok::<Seq<char>, Seq<char>>(r@),
        reads_back(r@, fields.pairs()),
{
    match write_json(fields) {
        Ok(text) => text,
        Err(_) => vstd::pervasive::unreached(),
    }
}

fn write_no_fields() -> (r: String)
    ensures
        json_text(Seq::empty()) == Ok::<Seq<char>, Seq<char>>(r@),
        is_built(r@, 1),
{
    let fields: PathMap<Field> = PathMap::new();
    assert(fields.pairs() =~= Seq::empty());
    write_writable(&fields)
}

fn write_no_items() -> (r: String)
    ensures
        list_text(Seq::empty()) == Ok::<Seq<char>, Seq<char>>(r@),
        is_built(r@, 0),
        is_built(r@, 1),
{
    let texts: Vec<String> = Vec::new();
    assert(texts.deep_view() =~= Seq::empty());
    match print_list(&texts) {
        Ok(text) => text,
        Err(_) => vstd::pervasive::unreached(),
    }
}

fn write_page_list() -> (r: String)
    ensures
        json_text(page_list()) == Ok::<Seq<char>, Seq<char>>(r@),
        is_built(r@, 1),
{
    let mut origin: PathMap<Field> = PathMap::new();
    assign(&mut origin, "timestamp", Field::Text("1:0".to_owned()));
    assign(&mut origin, "value", Field::Integer(-1));
    let original = write_writable(&origin);
    proof {
        let s = Seq::<(Seq<char>, FieldView)>::empty();
        let t = put(s, "timestamp"@, FieldView::Text("1:0"@));
        put_adds_one_value(s, "timestamp"@, FieldView::Text("1:0"@));
        put_adds_one_value(t, "value"@, FieldView::Integer((-1) as i64));
        assert forall|i: int| 0 <= i < page_origin().len() implies (
        #[trigger] page_origin()[i]).1 !is Raw by {
            if page_origin()[i].1 != FieldView::Integer((-1) as i64) {
                let j = choose|j: int|
                    0 <= j < t.len() && (#[trigger] t[j]).1 == page_origin()[i].1;
                assert(t[j].1 == FieldView::Text("1:0"@));
            }
        }
        assert(is_built(original@, 0));
        assert(is_built(original@, 1));
    }
    let pages = write_no_items();
    let mut list: PathMap<Field> = PathMap::new();
    assign(&mut list, "original", Field::Raw(original));
    assign(&mut list, "pages", Field::Raw(pages));
    proof {
        let s = Seq::<(Seq<char>, FieldView)>::empty();
        let first = FieldView::Raw(object_text(page_origin()));
        let second = FieldView::Raw(no_items());
        let t = put(s, "original"@, first);
        put_adds_one_value(s, "original"@, first);
        put_adds_one_value(t, "pages"@, second);
        assert forall|i: int| 0 <= i < page_list().len() implies (#[trigger] page_list()[i]).1
            == first || page_list()[i].1 == second by {
            if page_list()[i].1 != second {
                let j = choose|j: int|
                    0 <= j < t.len() && (#[trigger] t[j]).1 == page_list()[i].1;
                assert(t[j].1 == first);
            }
        }
    }
    write_writable(&list)
}

/// Content for a new document.
pub fn document_content_json(file_type: &str) -> (r: String)
    ensures
        json_text(content_fields(file_type@)) == Ok::<Seq<char>, Seq<char>>(r@),
        reads_back(r@, content_fields(file_type@)),
{
    let mut fields: PathMap<Field> = PathMap::new();
    assign(&mut fields, "cPages", Field::Raw(write_page_list()));
    assign(&mut fields, "coverPageNumber", Field::Integer(0));
    assign(&mut fields, "documentMetadata", Field::Raw(write_no_fields()));
    assign(&mut fields, "extraMetadata", Field::Raw(write_no_fields()));
    assign(&mut fields, "fontName", Field::Text("".to_owned()));
    assign(&mut fields, "formatVersion", Field::Integer(2));
    assign(&mut fields, "lineHeight", Field::Integer(-1));
    assign(&mut fields, "margins", Field::Integer(100));
    assign(&mut fields, "orientation", Field::Text("portrait".to_owned()));
    assign(&mut fields, "pageCount", Field::Integer(0));
    assign(&mut fields, "pageTags", Field::Raw(write_no_items()));
    assign(&mut fields, "sizeInBytes", Field::Text("0".to_owned()));
    assign(&mut fields, "textAlignment", Field::Text("left".to_owned()));
    assign(&mut fields, "textScale", Field::Integer(1));
    assign(&mut fields, "fileType", Field::Text(file_type.to_owned()));
    write_writable(&fields)
}

/// A change of an item's metadata. The time of modification always changes.
pub struct Change<'a> {
    pub parent: Option<&'a str>,
    pub visible_name: Option<&'a str>,
    pub now_ms: i64,
}

/// What a [`Change`] holds.
pub struct ChangeView {
    pub parent: Option<Seq<char>>,
    pub visible_name: Option<Seq<char>>,
    pub now_ms: i64,
}

impl<'a> DeepView for Change<'a> {
    type V = ChangeView;

    open spec fn deep_view(&self) -> ChangeView {
        ChangeView {
            parent: self.parent.deep_view(),
            visible_name: self.visible_name.deep_view(),
            now_ms: self.now_ms,
        }
    }
}

/// The metadata fields after a change.
pub open spec fn changed(fields: Seq<(Seq<char>, FieldView)>, change: ChangeView) -> Seq<
    (Seq<char>, FieldView),
> {
    let s = match change.parent {
        Some(parent) => put(fields, "parent"@, FieldView::Text(parent)),
        None => fields,
    };
    let s = match change.visible_name {
        Some(name) => put(s, "visibleName"@, FieldView::Text(name)),
        None => s,
    };
    put(s, "lastModified"@, FieldView::Text(decimal_i(change.now_ms as int)))
}

/// Changes metadata fields; all others stay as they are.
pub fn apply_change(fields: &mut PathMap<Field>, change: &Change)
    requires
        old(fields).wf(),
    ensures
        final(fields).wf(),
        final(fields).pairs() == changed(old(fields).pairs(), change.deep_view()),
        all_exact(old(fields).pairs()) ==> all_exact(final(fields).pairs()),
        all_writable(old(fields).pairs()) ==> all_writable(final(fields).pairs()),
{
    if let Some(parent) = change.parent {
        assign(fields, "parent", Field::Text(parent.to_owned()));
    }
    if let Some(name) = change.visible_name {
        assign(fields, "visibleName", Field::Text(name.to_owned()));
    }
    assign(fields, "lastModified", Field::Text(show_i64(change.now_ms)));
}

/// The new text of a metadata file after a change.
pub open spec fn rewritten(uuid: Seq<char>, text: Seq<char>, change: ChangeView) -> Result<
    Seq<char>,
    ErrorView,
> {
    match json_of(encode_utf8(text)) {
        Ok(JsonView::Object(fields)) => Ok(json_text(changed(fields, change))->Ok_0),
        Ok(JsonView::Other(_)) => Err(ErrorView::InvalidMetadata(uuid)),
        Err(message) => Err(ErrorView::Json { path: uuid + ".metadata"@, message }),
    }
}

/// The new text of the metadata file of an item, given the old text. Unknown fields are preserved.
pub fn rewrite_metadata(uuid: &str, text: &str, change: &Change) -> (r: Result<String, Error>)
    ensures
        agrees(r, rewritten(uuid@, text@, change.deep_view())),
        json_of(encode_utf8(text@)) matches Ok(JsonView::Object(fields)) ==> (all_exact(fields) ==> (
        r matches Ok(new_text) && json_of(encode_utf8(new_text@)) == Ok::<
            JsonView,
            Seq<char>,
        >(JsonView::Object(changed(fields, change.deep_view()))))),
{
    match Json::parse(text.as_bytes()) {
        Ok(Json::Object(fields)) => {
            let mut fields = fields;
            proof {
                read_documents_are_written_again(
                    encode_utf8(text@),
                    JsonView::Object(fields.pairs()),
                );
            }
            apply_change(&mut fields, change);
            match write_json(&fields) {
                Ok(text) => Ok(text),
                Err(_) => vstd::pervasive::unreached(),
            }
        },
        Ok(Json::Other(_)) => Err(Error::InvalidMetadata(uuid.to_owned())),
        Err(message) => Err(Error::Json { path: cat(uuid, ".metadata"), message }),
    }
}

/// A change touches the fields it names and no others.
pub proof fn changes_preserve_unknown_fields(
    fields: Seq<(Seq<char>, FieldView)>,
    change: ChangeView,
    name: Seq<char>,
)
    requires
        ascending(keys(fields)),
    ensures
        ascending(keys(changed(fields, change))),
        name != "parent"@ && name != "visibleName"@ && name != "lastModified"@ ==> value_of(
            changed(fields, change),
            name,
        ) == value_of(fields, name),
        value_of(changed(fields, change), "lastModified"@) == Some(
            FieldView::Text(decimal_i(change.now_ms as int)),
        ),
        value_of(changed(fields, change), "parent"@) == match change.parent {
            Some(parent) => Some(FieldView::Text(parent)),
            None => value_of(fields, "parent"@),
        },
        value_of(changed(fields, change), "visibleName"@) == match change.visible_name {
            Some(name) => Some(FieldView::Text(name)),
            None => value_of(fields, "visibleName"@),
        },
{
    reveal_strlit("parent");
    reveal_strlit("visibleName");
    reveal_strlit("lastModified");
    assert("parent"@.len() == 6 && "visibleName"@.len() == 11 && "lastModified"@.len() == 12);
    let s = match change.parent {
        Some(parent) => {
            put_sets_one_key(fields, "parent"@, FieldView::Text(parent));
            put(fields, "parent"@, FieldView::Text(parent))
        },
        None => fields,
    };
    let t = match change.visible_name {
        Some(name) => {
            put_sets_one_key(s, "visibleName"@, FieldView::Text(name));
            put(s, "visibleName"@, FieldView::Text(name))
        },
        None => s,
    };
    put_sets_one_key(t, "lastModified"@, FieldView::Text(decimal_i(change.now_ms as int)));
}

/// What the metadata of a new document holds, field by field.
pub proof fn document_field_values(name: Seq<char>, parent: Seq<char>, now_ms: i64)
    ensures
        ({
            let fields = document_fields(name, parent, now_ms);
            let now = decimal_i(now_ms as int);
            &&& value_of(fields, "createdTime"@) == Some(FieldView::Text(now))
            &&& value_of(fields, "lastModified"@) == Some(FieldView::Text(now))
            &&& value_of(fields, "parent"@) == Some(FieldView::Text(parent))
            &&& value_of(fields, "type"@) == Some(FieldView::Text("DocumentType"@))
            &&& value_of(fields, "visibleName"@) == Some(FieldView::Text(name))
            &&& value_of(fields, "lastOpened"@) == Some(FieldView::Text("0"@))
            &&& value_of(fields, "lastOpenedPage"@) == Some(FieldView::Integer(0))
            &&& value_of(fields, "new"@) == Some(FieldView::Bool(true))
            &&& value_of(fields, "pinned"@) == Some(FieldView::Bool(false))
            &&& value_of(fields, "source"@) == Some(FieldView::Text(""@))
        }),
{
    reveal_strlit("createdTime");
    reveal_strlit("lastModified");
    reveal_strlit("lastOpened");
    reveal_strlit("lastOpenedPage");
    reveal_strlit("new");
    reveal_strlit("parent");
    reveal_strlit("pinned");
    reveal_strlit("source");
    reveal_strlit("type");
    reveal_strlit("visibleName");
    assert("createdTime"@[0] == 'c' && "lastModified"@[0] == 'l' && "lastOpened"@[0] == 'l'
        && "lastOpenedPage"@[0] == 'l' && "new"@[0] == 'n' && "parent"@[0] == 'p' && "pinned"@[0]
        == 'p' && "source"@[0] == 's' && "type"@[0] == 't' && "visibleName"@[0] == 'v');
    assert("parent"@[1] == 'a' && "pinned"@[1] == 'i');
    assert("lastModified"@[4] == 'M' && "lastOpened"@[4] == 'O' && "lastOpenedPage"@[4] == 'O');
    assert("lastOpened"@.len() == 10 && "lastOpenedPage"@.len() == 14);
    let now = decimal_i(now_ms as int);
    let s0 = Seq::<(Seq<char>, FieldView)>::empty();
    put_sets_one_key(s0, "createdTime"@, FieldView::Text(now));
    let s1 = put(s0, "createdTime"@, FieldView::Text(now));
    put_sets_one_key(s1, "lastModified"@, FieldView::Text(now));
    let s2 = put(s1, "lastModified"@, FieldView::Text(now));
    put_sets_one_key(s2, "lastOpened"@, FieldView::Text("0"@));
    let s3 = put(s2, "lastOpened"@, FieldView::Text("0"@));
    put_sets_one_key(s3, "lastOpenedPage"@, FieldView::Integer(0));
    let s4 = put(s3, "lastOpenedPage"@, FieldView::Integer(0));
    put_sets_one_key(s4, "new"@, FieldView::Bool(true));
    let s5 = put(s4, "new"@, FieldView::Bool(true));
    put_sets_one_key(s5, "parent"@, FieldView::Text(parent));
    let s6 = put(s5, "parent"@, FieldView::Text(parent));
    put_sets_one_key(s6, "pinned"@, FieldView::Bool(false));
    let s7 = put(s6, "pinned"@, FieldView::Bool(false));
    put_sets_one_key(s7, "source"@, FieldView::Text(""@));
    let s8 = put(s7, "source"@, FieldView::Text(""@));
    put_sets_one_key(s8, "type"@, FieldView::Text("DocumentType"@));
    let s9 = put(s8, "type"@, FieldView::Text("DocumentType"@));
    put_sets_one_key(s9, "visibleName"@, FieldView::Text(name));
}

/// What the metadata of a new folder holds, field by field.
pub proof fn folder_field_values(name: Seq<char>, parent: Seq<char>, now_ms: i64)
    ensures
        ({
            let fields = folder_fields(name, parent, now_ms);
            let now = decimal_i(now_ms as int);
            &&& value_of(fields, "createdTime"@) == Some(FieldView::Text(now))
            &&& value_of(fields, "lastModified"@) == Some(FieldView::Text(now))
            &&& value_of(fields, "parent"@) == Some(FieldView::Text(parent))
            &&& value_of(fields, "type"@) == Some(FieldView::Text("CollectionType"@))
            &&& value_of(fields, "visibleName"@) == Some(FieldView::Text(name))
            &&& value_of(fields, "metadatamodified"@) == Some(FieldView::Bool(false))
            &&& value_of(fields, "modified"@) == Some(FieldView::Bool(false))
            &&& value_of(fields, "pinned"@) == Some(FieldView::Bool(false))
            &&& value_of(fields, "synced"@) == Some(FieldView::Bool(false))
            &&& value_of(fields, "version"@) == Some(FieldView::Integer(0))
        }),
{
    reveal_strlit("createdTime");
    reveal_strlit("lastModified");
    reveal_strlit("metadatamodified");
    reveal_strlit("modified");
    reveal_strlit("parent");
    reveal_strlit("pinned");
    reveal_strlit("synced");
    reveal_strlit("type");
    reveal_strlit("version");
    reveal_strlit("visibleName");
    assert("createdTime"@[0] == 'c' && "lastModified"@[0] == 'l' && "metadatamodified"@[0] == 'm'
        && "modified"@[0] == 'm' && "parent"@[0] == 'p' && "pinned"@[0] == 'p' && "synced"@[0]
        == 's' && "type"@[0] == 't' && "version"@[0] == 'v' && "visibleName"@[0] == 'v');
    assert("parent"@[1] == 'a' && "pinned"@[1] == 'i' && "version"@[1] == 'e' && "visibleName"@[1]
        == 'i');
    assert("metadatamodified"@.len() == 16 && "modified"@.len() == 8);
    let now = decimal_i(now_ms as int);
    let s0 = Seq::<(Seq<char>, FieldView)>::empty();
    put_sets_one_key(s0, "createdTime"@, FieldView::Text(now));
    let s1 = put(s0, "createdTime"@, FieldView::Text(now));
    put_sets_one_key(s1, "lastModified"@, FieldView::Text(now));
    let s2 = put(s1, "lastModified"@, FieldView::Text(now));
    put_sets_one_key(s2, "metadatamodified"@, FieldView::Bool(false));
    let s3 = put(s2, "metadatamodified"@, FieldView::Bool(false));
    put_sets_one_key(s3, "modified"@, FieldView::Bool(false));
    let s4 = put(s3, "modified"@, FieldView::Bool(false));
    put_sets_one_key(s4, "parent"@, FieldView::Text(parent));
    let s5 = put(s4, "parent"@, FieldView::Text(parent));
    put_sets_one_key(s5, "pinned"@, FieldView::Bool(false));
    let s6 = put(s5, "pinned"@, FieldView::Bool(false));
    put_sets_one_key(s6, "synced"@, FieldView::Bool(false));
    let s7 = put(s6, "synced"@, FieldView::Bool(false));
    put_sets_one_key(s7, "type"@, FieldView::Text("CollectionType"@));
    let s8 = put(s7, "type"@, FieldView::Text("CollectionType"@));
    put_sets_one_key(s8, "version"@, FieldView::Integer(0));
    let s9 = put(s8, "version"@, FieldView::Integer(0));
    put_sets_one_key(s9, "visibleName"@, FieldView::Text(name));
}

/// The metadata written for a new document is read as that document.
pub proof fn document_metadata_reads_back(
    uuid: Seq<char>,
    name: Seq<char>,
    parent: Seq<char>,
    now_ms: i64,
    content: Option<JsonView>,
    size_bytes: Option<u64>,
)
    ensures
        item_of(
            uuid,
            JsonView::Object(document_fields(name, parent, now_ms)),
            content,
            size_bytes,
        ) == Some(
            (ItemView {
                uuid,
                visible_name: if name.len() == 0 {
                    uuid
                } else {
                    name
                },
                parent,
                kind: ItemKind::Document,
                file_type: content_type(content),
                created_time: now_ms,
                last_modified: now_ms,
                size_bytes,
            }),
        ),
{
    document_field_values(name, parent, now_ms);
    shown_integer_reads_back(now_ms as int);
}

/// The metadata written for a new folder is read as that folder.
pub proof fn folder_metadata_reads_back(
    uuid: Seq<char>,
    name: Seq<char>,
    parent: Seq<char>,
    now_ms: i64,
    content: Option<JsonView>,
    size_bytes: Option<u64>,
)
    ensures
        item_of(
            uuid,
            JsonView::Object(folder_fields(name, parent, now_ms)),
            content,
            size_bytes,
        ) == Some(
            (ItemView {
                uuid,
                visible_name: if name.len() == 0 {
                    uuid
                } else {
                    name
                },
                parent,
                kind: ItemKind::Folder,
                file_type: None,
                created_time: now_ms,
                last_modified: now_ms,
                size_bytes: None,
            }),
        ),
{
    folder_field_values(name, parent, now_ms);
    shown_integer_reads_back(now_ms as int);
    reveal_strlit("DocumentType");
    reveal_strlit("CollectionType");
    assert("DocumentType"@.len() == 12 && "CollectionType"@.len() == 14);
}

/// What the content of a new document holds: its type, and for the rest an empty portrait document.
pub proof fn content_field_values(file_type: Seq<char>)
    ensures
        ascending(keys(content_fields(file_type))),
        value_of(content_fields(file_type), "fileType"@) == Some(FieldView::Text(file_type)),
        value_of(content_fields(file_type), "coverPageNumber"@) == Some(FieldView::Integer(0)),
        value_of(content_fields(file_type), "fontName"@) == Some(FieldView::Text(""@)),
        value_of(content_fields(file_type), "formatVersion"@) == Some(FieldView::Integer(2)),
        value_of(content_fields(file_type), "lineHeight"@) == Some(
            FieldView::Integer((-1) as i64),
        ),
        value_of(content_fields(file_type), "margins"@) == Some(FieldView::Integer(100)),
        value_of(content_fields(file_type), "orientation"@) == Some(
            FieldView::Text("portrait"@),
        ),
        value_of(content_fields(file_type), "pageCount"@) == Some(FieldView::Integer(0)),
        value_of(content_fields(file_type), "sizeInBytes"@) == Some(FieldView::Text("0"@)),
        value_of(content_fields(file_type), "textAlignment"@) == Some(FieldView::Text("left"@)),
        value_of(content_fields(file_type), "textScale"@) == Some(FieldView::Integer(1)),
{
    reveal_strlit("cPages");
    reveal_strlit("coverPageNumber");
    reveal_strlit("documentMetadata");
    reveal_strlit("extraMetadata");
    reveal_strlit("fontName");
    reveal_strlit("formatVersion");
    reveal_strlit("lineHeight");
    reveal_strlit("margins");
    reveal_strlit("orientation");
    reveal_strlit("pageCount");
    reveal_strlit("pageTags");
    reveal_strlit("sizeInBytes");
    reveal_strlit("textAlignment");
    reveal_strlit("textScale");
    reveal_strlit("fileType");
    assert("cPages"@[0] == 'c' && "coverPageNumber"@[0] == 'c' && "documentMetadata"@[0] == 'd'
        && "extraMetadata"@[0] == 'e' && "fontName"@[0] == 'f' && "formatVersion"@[0] == 'f'
        && "lineHeight"@[0] == 'l' && "margins"@[0] == 'm' && "orientation"@[0] == 'o'
        && "pageCount"@[0] == 'p' && "pageTags"@[0] == 'p' && "sizeInBytes"@[0] == 's'
        && "textAlignment"@[0] == 't' && "textScale"@[0] == 't' && "fileType"@[0] == 'f');
    assert("cPages"@.len() == 6 && "coverPageNumber"@.len() == 15 && "fontName"@.len() == 8
        && "formatVersion"@.len() == 13 && "pageCount"@.len() == 9 && "pageTags"@.len() == 8
        && "textAlignment"@.len() == 13 && "textScale"@.len() == 9 && "fileType"@.len() == 8);
    assert("fontName"@[1] == 'o' && "fileType"@[1] == 'i');
    let s0 = Seq::<(Seq<char>, FieldView)>::empty();
    let s1 = put(s0, "cPages"@, FieldView::Raw(object_text(page_list())));
    put_sets_one_key(s0, "cPages"@, FieldView::Raw(object_text(page_list())));
    let s2 = put(s1, "coverPageNumber"@, FieldView::Integer(0));
    put_sets_one_key(s1, "coverPageNumber"@, FieldView::Integer(0));
    let s3 = put(s2, "documentMetadata"@, FieldView::Raw(no_fields()));
    put_sets_one_key(s2, "documentMetadata"@, FieldView::Raw(no_fields()));
    let s4 = put(s3, "extraMetadata"@, FieldView::Raw(no_fields()));
    put_sets_one_key(s3, "extraMetadata"@, FieldView::Raw(no_fields()));
    let s5 = put(s4, "fontName"@, FieldView::Text(""@));
    put_sets_one_key(s4, "fontName"@, FieldView::Text(""@));
    let s6 = put(s5, "formatVersion"@, FieldView::Integer(2));
    put_sets_one_key(s5, "formatVersion"@, FieldView::Integer(2));
    let s7 = put(s6, "lineHeight"@, FieldView::Integer((-1) as i64));
    put_sets_one_key(s6, "lineHeight"@, FieldView::Integer((-1) as i64));
    let s8 = put(s7, "margins"@, FieldView::Integer(100));
    put_sets_one_key(s7, "margins"@, FieldView::Integer(100));
    let s9 = put(s8, "orientation"@, FieldView::Text("portrait"@));
    put_sets_one_key(s8, "orientation"@, FieldView::Text("portrait"@));
    let s10 = put(s9, "pageCount"@, FieldView::Integer(0));
    put_sets_one_key(s9, "pageCount"@, FieldView::Integer(0));
    let s11 = put(s10, "pageTags"@, FieldView::Raw(no_items()));
    put_sets_one_key(s10, "pageTags"@, FieldView::Raw(no_items()));
    let s12 = put(s11, "sizeInBytes"@, FieldView::Text("0"@));
    put_sets_one_key(s11, "sizeInBytes"@, FieldView::Text("0"@));
    let s13 = put(s12, "textAlignment"@, FieldView::Text("left"@));
    put_sets_one_key(s12, "textAlignment"@, FieldView::Text("left"@));
    let s14 = put(s13, "textScale"@, FieldView::Integer(1));
    put_sets_one_key(s13, "textScale"@, FieldView::Integer(1));
    put_sets_one_key(s14, "fileType"@, FieldView::Text(file_type));
}

/// The content written for a new document declares the document's file type.
pub proof fn content_declares_its_type(text: Seq<char>, file_type: Seq<char>)
    requires
        file_type.len() > 0,
    ensures
        reads_back(text, content_fields(file_type)) ==> content_type(
            Some(json_of(encode_utf8(text))->Ok_0),
        ) == Some(file_type),
{
    if reads_back(text, content_fields(file_type)) {
        let fields = content_fields(file_type);
        content_field_values(file_type);
        let back = json_of(encode_utf8(text))->Ok_0->Object_0;
        value_of_is_keyed(fields, "fileType"@);
        let i = choose|i: int|
            0 <= i < fields.len() && (#[trigger] fields[i]).0 == "fileType"@;
        value_of_at(fields, i);
        assert(keys(fields)[i] == keys(back)[i]);
        assert(fields[i].1 == FieldView::Text(file_type));
        value_of_at(back, i);
    }
}

/// A new document is read back as it was described: the metadata and the content written for it,
/// once parsed, describe the same document.
pub proof fn new_documents_read_back(
    uuid: Seq<char>,
    name: Seq<char>,
    parent: Seq<char>,
    now_ms: i64,
    file_type: Seq<char>,
    size_bytes: Option<u64>,
    metadata: Seq<char>,
    content: Seq<char>,
)
    requires
        name.len() > 0,
        file_type.len() > 0,
    ensures
        json_of(encode_utf8(metadata)) == Ok::<JsonView, Seq<char>>(
            JsonView::Object(document_fields(name, parent, now_ms)),
        ) && reads_back(content, content_fields(file_type)) ==> item_of(
            uuid,
            json_of(encode_utf8(metadata))->Ok_0,
            Some(json_of(encode_utf8(content))->Ok_0),
            size_bytes,
        ) == Some(
            (ItemView {
                uuid,
                visible_name: name,
                parent,
                kind: ItemKind::Document,
                file_type: Some(file_type),
                created_time: now_ms,
                last_modified: now_ms,
                size_bytes,
            }),
        ),
{
    content_declares_its_type(content, file_type);
    document_metadata_reads_back(
        uuid,
        name,
        parent,
        now_ms,
        Some(json_of(encode_utf8(content))->Ok_0),
        size_bytes,
    );
}

/// A new folder is read back as it was described, whatever stands beside its metadata.
pub proof fn new_folders_read_back(
    uuid: Seq<char>,
    name: Seq<char>,
    parent: Seq<char>,
    now_ms: i64,
    content: Option<JsonView>,
    size_bytes: Option<u64>,
    metadata: Seq<char>,
)
    requires
        name.len() > 0,
    ensures
        json_of(encode_utf8(metadata)) == Ok::<JsonView, Seq<char>>(
            JsonView::Object(folder_fields(name, parent, now_ms)),
        ) ==> item_of(uuid, json_of(encode_utf8(metadata))->Ok_0, content, size_bytes) == Some(
            (ItemView {
                uuid,
                visible_name: name,
                parent,
                kind: ItemKind::Folder,
                file_type: None,
                created_time: now_ms,
                last_modified: now_ms,
                size_bytes: None,
            }),
        ),
{
    folder_metadata_reads_back(uuid, name, parent, now_ms, content, size_bytes);
}

/// What metadata and content say of an item is what it is taken to be. It is a document or a folder by
/// its type, and nothing without one; an empty name does not count, a missing parent is the root, and
/// times may be numbers or texts. Only a document has a type and a size.
pub proof fn items_are_as_described(
    uuid: Seq<char>,
    fields: Seq<(Seq<char>, FieldView)>,
    content: Option<JsonView>,
    size_bytes: Option<u64>,
    n: i64,
)
    ensures
        ({
            let kind = value_of(fields, "type"@);
            let is_document = kind == Some(FieldView::Text("DocumentType"@));
            let is_folder = kind == Some(FieldView::Text("CollectionType"@));
            match item_of(uuid, JsonView::Object(fields), content, size_bytes) {
                None => !is_document && !is_folder,
                Some(item) => {
                    &&& item.uuid == uuid
                    &&& item.is_folder() <==> is_folder
                    &&& !item.is_folder() <==> is_document
                    &&& value_of(fields, "visibleName"@) matches Some(FieldView::Text(name)) ==> (
                    name.len() > 0 ==> item.visible_name == name)
                    &&& value_of(fields, "visibleName"@) is None || value_of(
                        fields,
                        "visibleName"@,
                    ) == Some(FieldView::Text(""@)) ==> item.visible_name == uuid
                    &&& value_of(fields, "parent"@) matches Some(FieldView::Text(parent))
                        ==> item.parent == parent
                    &&& value_of(fields, "parent"@) is None ==> item.parent.len() == 0
                    &&& value_of(fields, "createdTime"@) == Some(FieldView::Integer(n)) || value_of(
                        fields,
                        "createdTime"@,
                    ) == Some(FieldView::Text(decimal_i(n as int))) ==> item.created_time == n
                    &&& value_of(fields, "lastModified"@) == Some(FieldView::Integer(n))
                        || value_of(fields, "lastModified"@) == Some(
                        FieldView::Text(decimal_i(n as int)),
                    ) ==> item.last_modified == n
                    &&& is_folder ==> item.file_type is None && item.size_bytes is None
                    &&& is_document ==> item.size_bytes == size_bytes
                    &&& is_document && content is None ==> item.file_type is None
                    &&& is_document ==> (content matches Some(json) ==> (json.field("fileType"@)
                        matches Some(FieldView::Text(t)) ==> (t.len() > 0 ==> item.file_type
                        == Some(t))))
                    &&& is_document ==> (content matches Some(json) ==> (json.field(
                        "fileType"@,
                    ) is None ==> item.file_type == Some("notebook"@)))
                },
            }
        }),
{
    reveal_strlit("");
    reveal_strlit("DocumentType");
    reveal_strlit("CollectionType");
    assert("DocumentType"@.len() == 12 && "CollectionType"@.len() == 14);
    assert(""@.len() == 0);
    shown_integer_reads_back(n as int);
}

/// Metadata is rewritten only where it is an object: anything else is named as what it is, by the UUID
/// of its item, and text that cannot be read by its file.
pub proof fn only_objects_are_rewritten(uuid: Seq<char>, text: Seq<char>, change: ChangeView)
    ensures
        match json_of(encode_utf8(text)) {
            Ok(JsonView::Object(fields)) => rewritten(uuid, text, change) is Ok,
            Ok(JsonView::Other(_)) => rewritten(uuid, text, change) == Err::<Seq<char>, ErrorView>(
                ErrorView::InvalidMetadata(uuid),
            ),
            Err(message) => rewritten(uuid, text, change) == Err::<Seq<char>, ErrorView>(
                ErrorView::Json { path: uuid + ".metadata"@, message },
            ),
        },
{
}

} // verus!
