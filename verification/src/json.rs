//! JSON documents, parsed by `serde_json` and seen one level deep: the fields of a
//! top-level object and the shape of each field's value. That is all the transcript,
//! session-metadata and knowledge-graph readers look at; no string beyond a field's own
//! text is ever read, and of an array only its length is looked at.

use vstd::prelude::*;

verus! {

/// A JSON value as `serde_json` holds it; opaque here.
#[verifier::external_type_specification]
#[verifier::external_body]
pub struct ExJsonValue(serde_json::Value);

/// The value of one top-level field.
#[derive(Debug, Clone)]
pub enum JsonField {
    Null,
    Bool(bool),
    Number,
    Str(String),
    /// An array, with its elements as parsed.
    Array(Vec<serde_json::Value>),
    Object,
}

/// A parsed document: a top-level object by its fields, or any other top-level value.
#[derive(Debug, Clone)]
pub enum JsonDoc {
    Object(Vec<(String, JsonField)>),
    Other,
}

pub enum JsonFieldView {
    Null,
    Bool(bool),
    Number,
    Str(Seq<char>),
    /// An array, by its number of elements.
    Array(nat),
    Object,
}

pub enum JsonDocView {
    Object(Seq<(Seq<char>, JsonFieldView)>),
    Other,
}

impl View for JsonField {
    type V = JsonFieldView;

    open spec fn view(&self) -> JsonFieldView {
        match self {
            JsonField::Null => JsonFieldView::Null,
            JsonField::Bool(b) => JsonFieldView::Bool(*b),
            JsonField::Number => JsonFieldView::Number,
            JsonField::Str(s) => JsonFieldView::Str(s@),
            JsonField::Array(a) => JsonFieldView::Array(a@.len()),
            JsonField::Object => JsonFieldView::Object,
        }
    }
}

pub open spec fn field_entry_view(e: (String, JsonField)) -> (Seq<char>, JsonFieldView) {
    (e.0@, e.1@)
}

impl View for JsonDoc {
    type V = JsonDocView;

    open spec fn view(&self) -> JsonDocView {
        match self {
            JsonDoc::Object(fs) => JsonDocView::Object(
                fs@.map_values(|e: (String, JsonField)| field_entry_view(e)),
            ),
            JsonDoc::Other => JsonDocView::Other,
        }
    }
}

/// What `serde_json::from_str::<serde_json::Value>` makes of `text`, one level deep:
/// `None` when the text is not one JSON value.
pub uninterp spec fn json_doc(text: Seq<char>) -> Option<JsonDocView>;

/// Calls `serde_json::from_str::<serde_json::Value>` and converts the result: an error
/// becomes `None`, a top-level object becomes its fields (each value by its variant, with
/// strings and arrays moved out, numbers and nested objects dropped), and any other value
/// becomes `Other`. The contract only names the result.
#[verifier::external_body]
pub(crate) fn parse_json(text: &str) -> (r: Option<JsonDoc>)
    ensures
        match r {
            Some(d) => json_doc(text@) == Some(d@),
            None => json_doc(text@).is_none(),
        },
{
    match serde_json::from_str::<serde_json::Value>(text) {
        Err(_) => None,
        Ok(serde_json::Value::Object(m)) => Some(JsonDoc::Object(m.into_iter().map(|(k, v)| (k, match v {
            serde_json::Value::Null => JsonField::Null,
            serde_json::Value::Bool(b) => JsonField::Bool(b),
            serde_json::Value::Number(_) => JsonField::Number,
            serde_json::Value::String(s) => JsonField::Str(s),
            serde_json::Value::Array(a) => JsonField::Array(a),
            serde_json::Value::Object(_) => JsonField::Object,
        })).collect())),
        Ok(_) => Some(JsonDoc::Other),
    }
}

/// The value of field `key` in a parsed document: `serde_json::Value::get` with a string
/// key, which finds nothing in anything but an object.
pub open spec fn field_of(doc: Option<JsonDocView>, key: Seq<char>) -> Option<JsonFieldView> {
    match doc {
        Some(JsonDocView::Object(fs)) => lookup_field(fs, key),
        _ => None,
    }
}

pub open spec fn lookup_field(fs: Seq<(Seq<char>, JsonFieldView)>, key: Seq<char>) -> Option<
    JsonFieldView,
>
    decreases fs.len(),
{
    if fs.len() == 0 {
        None
    } else if fs[0].0 == key {
        Some(fs[0].1)
    } else {
        lookup_field(fs.drop_first(), key)
    }
}

/// The string held by field `key`, if it holds one (`get(key)?.as_str()`).
pub open spec fn str_field(doc: Option<JsonDocView>, key: Seq<char>) -> Option<Seq<char>> {
    match field_of(doc, key) {
        Some(JsonFieldView::Str(s)) => Some(s),
        _ => None,
    }
}

/// The length of the array held by field `key`, if it holds one (`get(key)?.as_array()`).
pub open spec fn array_len_field(doc: Option<JsonDocView>, key: Seq<char>) -> Option<nat> {
    match field_of(doc, key) {
        Some(JsonFieldView::Array(n)) => Some(n),
        _ => None,
    }
}

/// The field `key` of a document.
pub fn get_field<'a>(doc: &'a Option<JsonDoc>, key: &str) -> (r: Option<&'a JsonField>)
    ensures
        match r {
            Some(f) => field_of(opt_doc_view(*doc), key@) == Some(f@),
            None => field_of(opt_doc_view(*doc), key@).is_none(),
        },
{
    match doc {
        Some(JsonDoc::Object(fs)) => {
            let k = crate::text::chars_of(key);
            let ghost fv = fs@.map_values(|e: (String, JsonField)| field_entry_view(e));
            let mut i: usize = 0;
            assert(fv.skip(0) =~= fv);
            while i < fs.len()
                invariant
                    i <= fs.len(),
                    opt_doc_view(*doc) == Some(JsonDocView::Object(fv)),
                    k@ == key@,
                    fv == fs@.map_values(|e: (String, JsonField)| field_entry_view(e)),
                    lookup_field(fv, key@) == lookup_field(fv.skip(i as int), key@),
                decreases fs.len() - i,
            {
                let name = crate::text::chars_of(fs[i].0.as_str());
                let n = name.len();
                assert(name@.subrange(0, n as int) =~= name@);
                assert(fv.skip(i as int)[0] == field_entry_view(fs@[i as int]));
                if crate::text::window_eq(&name, 0, n, &k) {
                    assert(fv.skip(i as int)[0].0 == key@);
                    return Some(&fs[i].1);
                }
                assert(fv.skip(i as int).drop_first() =~= fv.skip(i + 1));
                i += 1;
            }
            None
        },
        _ => None,
    }
}

pub open spec fn opt_doc_view(d: Option<JsonDoc>) -> Option<JsonDocView> {
    match d {
        Some(x) => Some(x@),
        None => None,
    }
}

/// Parses `text` and returns the document by view.
pub fn parse(text: &str) -> (r: Option<JsonDoc>)
    ensures
        opt_doc_view(r) == json_doc(text@),
{
    parse_json(text)
}

} // verus!
