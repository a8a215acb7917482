//! JSON documents, as far as the library looks into them: the fields of the top-level object.
use vstd::prelude::*;
use vstd::utf8::encode_utf8;
use crate::number::{decimal_i, is_digit, parse_i64, parse_int, shown_integer_reads_back};
use crate::pathmap::{keys, value_of, PathMap};
use crate::text::{ascending, to_chars};

verus! {

/// The value of a field.
#[derive(Debug)]
pub enum Field {
    Text(String),
    /// A number that is a 64-bit signed integer.
    Integer(i64),
    /// A number that is a 64-bit unsigned integer.
    Natural(u64),
    Bool(bool),
    Null,
    /// Anything else, as compact JSON text.
    Raw(String),
}

/// What a [`Field`] holds.
pub enum FieldView {
    Text(Seq<char>),
    Integer(i64),
    Natural(u64),
    Bool(bool),
    Null,
    Raw(Seq<char>),
}

impl DeepView for Field {
    type V = FieldView;

    open spec fn deep_view(&self) -> FieldView {
        match *self {
            Field::Text(s) => FieldView::Text(s@),
            Field::Integer(i) => FieldView::Integer(i),
            Field::Natural(n) => FieldView::Natural(n),
            Field::Bool(b) => FieldView::Bool(b),
            Field::Null => FieldView::Null,
            Field::Raw(s) => FieldView::Raw(s@),
        }
    }
}

/// What a JSON document holds.
pub enum JsonView {
    /// The fields of an object, in ascending order of their names.
    Object(Seq<(Seq<char>, FieldView)>),
    /// Anything but an object, as compact JSON text.
    Other(Seq<char>),
}

/// The document that bytes hold; the message of the error for bytes that are no JSON.
pub uninterp spec fn json_of(bytes: Seq<u8>) -> Result<JsonView, Seq<char>>;

/// The pretty-printed form of a JSON text; the message of the error for a text that is no JSON.
pub uninterp spec fn pretty_of(text: Seq<char>) -> Result<Seq<char>, Seq<char>>;

/// The pretty-printed object with the given fields; the message of the error where a raw value is
/// no JSON.
pub uninterp spec fn json_text(fields: Seq<(Seq<char>, FieldView)>) -> Result<
    Seq<char>,
    Seq<char>,
>;

/// The pretty-printed list of the given JSON texts; the message of the error where one of them is
/// no JSON.
pub uninterp spec fn list_text(texts: Seq<Seq<char>>) -> Result<Seq<char>, Seq<char>>;

/// Whether a text is a printed object whose values could all be written.
pub open spec fn is_printed(text: Seq<char>) -> bool {
    exists|fields: Seq<(Seq<char>, FieldView)>|
        ascending(keys(fields)) && all_writable(fields) && #[trigger] json_text(fields) == Ok::<
            Seq<char>,
            Seq<char>,
        >(text)
}

/// Whether all texts are printed objects.
pub open spec fn all_printed(texts: Seq<Seq<char>>) -> bool {
    forall|i: int| 0 <= i < texts.len() ==> is_printed(#[trigger] texts[i])
}

/// Whether a raw value was read as a field of some JSON document.
pub open spec fn is_read(raw: Seq<char>) -> bool {
    exists|bytes: Seq<u8>, key: Seq<char>| #[trigger] reads_as(bytes, key, raw)
}

/// Whether the bytes hold an object with the raw value as the given field.
pub open spec fn reads_as(bytes: Seq<u8>, key: Seq<char>, raw: Seq<char>) -> bool {
    json_of(bytes) matches Ok(JsonView::Object(fields)) && value_of(fields, key) == Some(
        FieldView::Raw(raw),
    )
}

/// Whether a raw value may hold a floating-point number: a digit followed by a dot or an exponent.
pub open spec fn may_hold_float(raw: Seq<char>) -> bool {
    exists|i: int|
        0 <= i < raw.len() - 1 && is_digit(#[trigger] raw[i]) && (raw[i + 1] == '.' || raw[i + 1]
            == 'e')
}

/// Whether a raw value is a printed object, or the printed empty list. The raw values in the object
/// are of the same kind, and objects are nested at most `depth` deep in it.
pub open spec fn is_built(raw: Seq<char>, depth: nat) -> bool
    decreases depth,
{
    ||| list_text(Seq::empty()) == Ok::<Seq<char>, Seq<char>>(raw)
    ||| exists|fields: Seq<(Seq<char>, FieldView)>|
        #![trigger json_text(fields)]
        {
            &&& json_text(fields) == Ok::<Seq<char>, Seq<char>>(raw)
            &&& ascending(keys(fields))
            &&& forall|i: int|
                0 <= i < fields.len() ==> (#[trigger] fields[i].1 matches FieldView::Raw(inner)
                    ==> depth > 0 && is_built(inner, (depth - 1) as nat))
        }
}

/// Whether a value can be written: it is no raw text, or one that was read, or one that was built
/// and holds at most one more level of objects.
pub open spec fn is_writable(value: FieldView) -> bool {
    value matches FieldView::Raw(raw) ==> is_read(raw) || is_built(raw, 1)
}

/// Whether a value is read back as it was written. A number that is a signed integer is read as
/// one.
pub open spec fn is_exact(value: FieldView) -> bool {
    match value {
        FieldView::Raw(raw) => is_read(raw) && !may_hold_float(raw),
        FieldView::Natural(n) => n > i64::MAX,
        _ => true,
    }
}

/// Whether all values can be written.
pub open spec fn all_writable(fields: Seq<(Seq<char>, FieldView)>) -> bool {
    forall|i: int| 0 <= i < fields.len() ==> is_writable(#[trigger] fields[i].1)
}

/// Whether all values are read back as they were written.
pub open spec fn all_exact(fields: Seq<(Seq<char>, FieldView)>) -> bool {
    forall|i: int| 0 <= i < fields.len() ==> is_exact(#[trigger] fields[i].1)
}

/// Whether a raw value is all that some JSON document holds.
pub open spec fn is_read_alone(raw: Seq<char>) -> bool {
    exists|bytes: Seq<u8>| #[trigger] json_of(bytes) == Ok::<JsonView, Seq<char>>(
        JsonView::Other(raw),
    )
}

/// Whether a document is in the form in which documents are read: the fields of an object are in
/// ascending order of their names, and a number is a natural one only where it is no signed integer.
pub open spec fn is_in_read_form(json: JsonView) -> bool {
    json matches JsonView::Object(fields) ==> ascending(keys(fields)) && forall|i: int|
        0 <= i < fields.len() ==> (#[trigger] fields[i].1 matches FieldView::Natural(n) ==> n
            > i64::MAX)
}

/// Whether a raw value of a document may hold a floating-point number.
pub open spec fn may_hold_floats(json: JsonView) -> bool {
    match json {
        JsonView::Object(fields) => exists|i: int|
            0 <= i < fields.len() && #[trigger] fields[i].1 is Raw && may_hold_float(
                fields[i].1->Raw_0,
            ),
        JsonView::Other(raw) => may_hold_float(raw),
    }
}

/// Whether a document can be printed.
pub open spec fn can_be_printed(json: JsonView) -> bool {
    match json {
        JsonView::Object(fields) => all_writable(fields),
        JsonView::Other(raw) => is_read_alone(raw),
    }
}

/// Whether a document is read back as it was printed.
pub open spec fn is_exact_document(json: JsonView) -> bool {
    match json {
        JsonView::Object(fields) => all_exact(fields),
        JsonView::Other(raw) => is_read_alone(raw) && !may_hold_float(raw),
    }
}

/// Whether a text is read as an object with fields of the given names, in which each value that is
/// no raw text is the same. Nothing is said of the raw ones: they are read as compact text.
pub open spec fn reads_back(text: Seq<char>, fields: Seq<(Seq<char>, FieldView)>) -> bool {
    json_of(encode_utf8(text)) matches Ok(JsonView::Object(back)) && keys(back) == keys(fields)
        && forall|i: int|
        0 <= i < fields.len() && fields[i].1 !is Raw && is_exact(fields[i].1) ==> back[i].1
            == #[trigger] fields[i].1
}

/// A document as it was read.
enum Document {
    Object(Vec<(String, Field)>),
    Other(String),
}

/// `serde_json::from_slice` into a `serde_json::Value`, and the fields of the object that it
/// gives. What it gives is a function of the bytes alone. A `serde_json::Map` holds each name once,
/// in ascending order. A number that `Value::as_i64` takes is an integer field, another one that
/// `Value::as_u64` takes a natural one; numbers that neither takes, lists and objects are kept as
/// the compact text that `Value` displays as.
#[verifier::external_body]
fn read_document(bytes: &[u8]) -> (r: Result<Document, String>)
    ensures
        match r {
            Ok(Document::Object(fields)) => json_of(bytes@) is Ok && json_of(bytes@)->Ok_0
                == JsonView::Object(fields.deep_view()) && is_in_read_form(
                JsonView::Object(fields.deep_view()),
            ),
            Ok(Document::Other(raw)) => json_of(bytes@) is Ok && json_of(bytes@)->Ok_0
                == JsonView::Other(raw@),
            Err(e) => json_of(bytes@) is Err && json_of(bytes@)->Err_0 == e@,
        },
{
    match serde_json::from_slice(bytes) {
        Ok(serde_json::Value::Object(map)) => Ok(Document::Object(map.into_iter().map(|(name, value)| (name, match value {
            serde_json::Value::String(s) => Field::Text(s),
            serde_json::Value::Bool(b) => Field::Bool(b),
            serde_json::Value::Null => Field::Null,
            other => other.as_i64().map(Field::Integer).or_else(|| other.as_u64().map(Field::Natural))
                .unwrap_or_else(|| Field::Raw(other.to_string())),
        })).collect())),
        Ok(other) => Ok(Document::Other(other.to_string())),
        Err(e) => Err(e.to_string()),
    }
}

/// `serde_json::to_string_pretty` of the `serde_json::Value` that a text holds. The result is a
/// function of the text alone. What such a value displays as is JSON, so a document that was read
/// can be printed, and is read back as it was; but reading rounds some floating-point numbers.
#[verifier::external_body]
fn print_text(text: &str) -> (r: Result<String, String>)
    ensures
        match r {
            Ok(pretty) => pretty_of(text@) is Ok && pretty_of(text@)->Ok_0 == pretty@,
            Err(e) => pretty_of(text@) is Err && pretty_of(text@)->Err_0 == e@,
        },
        is_read_alone(text@) ==> r is Ok,
        is_read_alone(text@) && !may_hold_float(text@) ==> r is Ok && json_of(
            encode_utf8(r->Ok_0@),
        ) is Ok && json_of(encode_utf8(r->Ok_0@))->Ok_0 == JsonView::Other(text@),
{
    let value: serde_json::Value = serde_json::from_str(text).map_err(|e| e.to_string())?;
    serde_json::to_string_pretty(&value).map_err(|e| e.to_string())
}

/// `serde_json::to_string_pretty` of the object with the given fields; a raw value is read with
/// `serde_json::from_str` first. The text is a function of the fields alone. Printing a value
/// cannot fail, so only a raw value that is no JSON gives an error. What is printed is read back as
/// it was, with two exceptions: reading rounds some floating-point numbers, and a raw value that
/// was not compact comes back compact.
#[verifier::external_body]
fn print_fields(fields: &Vec<(String, Field)>) -> (r: Result<String, String>)
    requires
        ascending(keys(fields.deep_view())),
    ensures
        match r {
            Ok(text) => json_text(fields.deep_view()) is Ok && json_text(fields.deep_view())->Ok_0
                == text@,
            Err(e) => json_text(fields.deep_view()) is Err && json_text(fields.deep_view())->Err_0
                == e@,
        },
        all_writable(fields.deep_view()) ==> r is Ok && reads_back(
            r->Ok_0@,
            fields.deep_view(),
        ),
        all_exact(fields.deep_view()) ==> r is Ok && json_of(encode_utf8(r->Ok_0@)) is Ok && json_of(
            encode_utf8(r->Ok_0@),
        )->Ok_0 == JsonView::Object(fields.deep_view()),
{
    let mut map = serde_json::Map::new();
    for (name, field) in fields {
        map.insert(name.clone(), match field {
            Field::Text(s) => serde_json::Value::from(s.as_str()),
            Field::Integer(i) => serde_json::Value::from(*i),
            Field::Natural(n) => serde_json::Value::from(*n),
            Field::Bool(b) => serde_json::Value::from(*b),
            Field::Null => serde_json::Value::Null,
            Field::Raw(raw) => serde_json::from_str(raw).map_err(|e| e.to_string())?,
        });
    }
    serde_json::to_string_pretty(&serde_json::Value::Object(map)).map_err(|e| e.to_string())
}

/// `serde_json::to_string_pretty` of a list of texts that hold JSON, each read with
/// `serde_json::from_str` first. The text is a function of the texts alone. An object that was
/// printed, with no raw values but such that were read or built a few levels deep, can be read
/// again: it is nested no deeper than a document that could be read. So a list of such objects can
/// be printed.
#[verifier::external_body]
fn print_texts(texts: &Vec<String>) -> (r: Result<String, String>)
    ensures
        match r {
            Ok(text) => list_text(texts.deep_view()) is Ok && list_text(texts.deep_view())->Ok_0
                == text@,
            Err(e) => list_text(texts.deep_view()) is Err && list_text(texts.deep_view())->Err_0
                == e@,
        },
        all_printed(texts.deep_view()) ==> r is Ok,
{
    let list: Result<Vec<serde_json::Value>, serde_json::Error> = texts.iter().map(|text| serde_json::from_str(text)).collect();
    serde_json::to_string_pretty(&list.map_err(|e| e.to_string())?).map_err(|e| e.to_string())
}

/// A JSON document.
#[derive(Debug)]
pub enum Json {
    Object(PathMap<Field>),
    /// Anything but an object, as compact JSON text.
    Other(String),
}

impl DeepView for Json {
    type V = JsonView;

    open spec fn deep_view(&self) -> JsonView {
        match *self {
            Json::Object(fields) => JsonView::Object(fields.pairs()),
            Json::Other(raw) => JsonView::Other(raw@),
        }
    }
}

impl JsonView {
    /// The value of a field of the document; a document that is no object has none.
    pub open spec fn field(self, name: Seq<char>) -> Option<FieldView> {
        match self {
            JsonView::Object(fields) => value_of(fields, name),
            JsonView::Other(_) => None,
        }
    }

    /// The text of a field, if the field is a text.
    pub open spec fn text(self, name: Seq<char>) -> Option<Seq<char>> {
        match self.field(name) {
            Some(FieldView::Text(s)) => Some(s),
            _ => None,
        }
    }

    /// The text of a field, if the field is a text and not empty.
    pub open spec fn some_text(self, name: Seq<char>) -> Option<Seq<char>> {
        match self.field(name) {
            Some(FieldView::Text(s)) => if s.len() > 0 {
                Some(s)
            } else {
                None
            },
            _ => None,
        }
    }

    /// The integer of a field, given as a number or as a text; 0 where there is none.
    pub open spec fn lenient_integer(self, name: Seq<char>) -> i64 {
        match self.field(name) {
            Some(FieldView::Integer(i)) => i,
            Some(FieldView::Text(s)) => match parse_int(s) {
                Some(i) => i as i64,
                None => 0,
            },
            _ => 0,
        }
    }
}

impl Json {
    /// The fields of an object are in ascending order of their names.
    pub open spec fn wf(&self) -> bool {
        self matches Json::Object(fields) ==> fields.wf()
    }

    /// Reads a JSON document; the error is the message of the reader.
    pub fn parse(bytes: &[u8]) -> (r: Result<Json, String>)
        ensures
            match r {
                Ok(json) => json.wf() && is_in_read_form(json.deep_view()) && json_of(bytes@)
                    == Ok::<JsonView, Seq<char>>(json.deep_view()),
                Err(e) => json_of(bytes@) == Err::<JsonView, Seq<char>>(e@),
            },
    {
        match read_document(bytes) {
            Ok(Document::Object(fields)) => Ok(Json::Object(PathMap::from_sorted(fields))),
            Ok(Document::Other(raw)) => Ok(Json::Other(raw)),
            Err(e) => Err(e),
        }
    }

    fn field(&self, name: &str) -> (r: Option<&Field>)
        ensures
            match r {
                Some(field) => self.deep_view().field(name@) == Some(field.deep_view()),
                None => self.deep_view().field(name@) is None,
            },
    {
        match self {
            Json::Object(fields) => fields.get(name),
            Json::Other(_) => None,
        }
    }

    /// The text of a field, if the field is a text.
    pub fn text(&self, name: &str) -> (r: Option<&str>)
        ensures
            r.deep_view() == self.deep_view().text(name@),
    {
        match self.field(name) {
            Some(Field::Text(s)) => Some(s.as_str()),
            _ => None,
        }
    }

    /// The text of a field, if the field is a text and not empty.
    pub fn some_text(&self, name: &str) -> (r: Option<&str>)
        ensures
            r.deep_view() == self.deep_view().some_text(name@),
    {
        match self.field(name) {
            Some(Field::Text(s)) => {
                if s.as_str().is_empty() {
                    None
                } else {
                    Some(s.as_str())
                }
            },
            _ => None,
        }
    }

    /// The integer of a field. The tablet stores timestamps sometimes as texts, sometimes as
    /// numbers.
    pub fn lenient_i64(&self, name: &str) -> (r: i64)
        ensures
            r == self.deep_view().lenient_integer(name@),
    {
        match self.field(name) {
            Some(Field::Integer(i)) => *i,
            Some(Field::Text(s)) => {
                let chars = to_chars(s.as_str());
                match parse_i64(&chars) {
                    Some(i) => i,
                    None => 0,
                }
            },
            _ => 0,
        }
    }
}

/// Writes an object; the error is the message of the reader of a raw value.
pub fn write_json(fields: &PathMap<Field>) -> (r: Result<String, String>)
    requires
        fields.wf(),
    ensures
        match r {
            Ok(text) => json_text(fields.pairs()) == Ok::<Seq<char>, Seq<char>>(text@),
            Err(e) => json_text(fields.pairs()) == Err::<Seq<char>, Seq<char>>(e@),
        },
        all_writable(fields.pairs()) ==> (r matches Ok(text) && reads_back(text@, fields.pairs())),
        all_exact(fields.pairs()) ==> (r matches Ok(text) && json_of(encode_utf8(text@))
            == Ok::<JsonView, Seq<char>>(JsonView::Object(fields.pairs()))),
{
    let entries = fields.entries();
    proof {
        let pairs = fields.pairs();
        assert forall|i: int| 0 <= i < entries.len() implies #[trigger] entries[i].1.deep_view()
            == pairs[i].1 by {
            assert(pairs[i] == entries[i].deep_view());
        }
    }
    print_fields(entries)
}

/// The pretty-printed form of a document.
pub open spec fn printed(json: JsonView) -> Result<Seq<char>, Seq<char>> {
    match json {
        JsonView::Object(fields) => json_text(fields),
        JsonView::Other(raw) => pretty_of(raw),
    }
}

/// Prints a document; the error is the message of the reader of a raw value.
pub fn print_json(json: &Json) -> (r: Result<String, String>)
    requires
        json.wf(),
    ensures
        match r {
            Ok(text) => printed(json.deep_view()) == Ok::<Seq<char>, Seq<char>>(text@),
            Err(e) => printed(json.deep_view()) == Err::<Seq<char>, Seq<char>>(e@),
        },
        can_be_printed(json.deep_view()) ==> r is Ok,
        is_exact_document(json.deep_view()) ==> (r matches Ok(text) && json_of(encode_utf8(text@))
            == Ok::<JsonView, Seq<char>>(json.deep_view())),
{
    match json {
        Json::Object(fields) => write_json(fields),
        Json::Other(raw) => print_text(raw.as_str()),
    }
}

/// Prints a list of objects.
pub fn print_list(texts: &Vec<String>) -> (r: Result<String, String>)
    ensures
        match r {
            Ok(text) => list_text(texts.deep_view()) == Ok::<Seq<char>, Seq<char>>(text@),
            Err(e) => list_text(texts.deep_view()) == Err::<Seq<char>, Seq<char>>(e@),
        },
        all_printed(texts.deep_view()) ==> r is Ok,
{
    print_texts(texts)
}

/// What is asked of a field is told only where the field holds it: a text as a text, an integer also
/// where it is written as one; a document that is no object has no fields.
pub proof fn fields_are_read_as_what_they_are(
    fields: Seq<(Seq<char>, FieldView)>,
    raw: Seq<char>,
    name: Seq<char>,
    text: Seq<char>,
    n: i64,
)
    ensures
        ({
            let json = JsonView::Object(fields);
            let other = JsonView::Other(raw);
            &&& json.field(name) == value_of(fields, name)
            &&& json.text(name) == Some(text) <==> value_of(fields, name) == Some(
                FieldView::Text(text),
            )
            &&& json.some_text(name) == Some(text) <==> value_of(fields, name) == Some(
                FieldView::Text(text),
            ) && text.len() > 0
            &&& value_of(fields, name) == Some(FieldView::Integer(n)) ==> json.lenient_integer(name)
                == n
            &&& value_of(fields, name) == Some(FieldView::Text(decimal_i(n as int)))
                ==> json.lenient_integer(name) == n
            &&& value_of(fields, name) is None ==> json.lenient_integer(name) == 0
            &&& other.field(name) is None && other.text(name) is None && other.some_text(
                name,
            ) is None && other.lenient_integer(name) == 0
        }),
{
    shown_integer_reads_back(n as int);
}

} // verus!
