//! A JSON document as a plain tree, and the parser that produces it.
//!
//! Parsing is done by `serde_json`; this module turns its document type into a
//! tree of plain values that the rest of the crate can inspect.

use vstd::prelude::*;

verus! {

/// A parsed JSON document.
#[derive(Debug)]
pub enum Json {
    Null,
    Bool(bool),
    /// A number; `None` stands for one that is not an unsigned 64-bit integer.
    Number(Option<u64>),
    Text(String),
    Array(Vec<Json>),
    /// The members of an object, each a key and its value.
    Object(Vec<(String, Json)>),
}

/// The mathematical value of a [`Json`] document.
pub enum JsonValue {
    Null,
    Bool(bool),
    Number(Option<u64>),
    Text(Seq<char>),
    Array(Seq<JsonValue>),
    Object(Seq<(Seq<char>, JsonValue)>),
}

/// The mathematical value of a document: the same tree, with each text and
/// each list as a sequence.
pub open spec fn document(json: Json) -> JsonValue
    decreases json,
{
    match json {
        Json::Null => JsonValue::Null,
        Json::Bool(b) => JsonValue::Bool(b),
        Json::Number(n) => JsonValue::Number(n),
        Json::Text(s) => JsonValue::Text(s@),
        Json::Array(items) => JsonValue::Array(
            Seq::new(
                items@.len(),
                |i: int|
                    if 0 <= i < items@.len() {
                        document(items@[i])
                    } else {
                        JsonValue::Null
                    },
            ),
        ),
        Json::Object(members) => JsonValue::Object(
            Seq::new(
                members@.len(),
                |i: int|
                    if 0 <= i < members@.len() {
                        (members@[i].0@, document(members@[i].1))
                    } else {
                        (Seq::empty(), JsonValue::Null)
                    },
            ),
        ),
    }
}

impl View for Json {
    type V = JsonValue;

    open spec fn view(&self) -> JsonValue {
        document(*self)
    }
}

/// The view of an array has one item for each item of the array, in order.
pub proof fn lemma_array_view(json: &Json)
    requires
        json is Array,
    ensures
        json@ is Array,
        json@->Array_0.len() == json->Array_0@.len(),
        forall|i: int|
            0 <= i < json->Array_0@.len() ==> #[trigger] json@->Array_0[i] == json->Array_0@[i]@,
{
}

/// The view of an object has one member for each member of the object, in
/// order, under the same key.
pub proof fn lemma_object_view(json: &Json)
    requires
        json is Object,
    ensures
        json@ is Object,
        json@->Object_0.len() == json->Object_0@.len(),
        forall|i: int|
            0 <= i < json->Object_0@.len() ==> #[trigger] json@->Object_0[i] == (
                json->Object_0@[i].0@,
                json->Object_0@[i].1@,
            ),
{
}

/// `serde_json::Value`, the document type of `serde_json`, as an opaque value.
#[verifier::external_type_specification]
#[verifier::external_body]
pub struct ExValue(serde_json::Value);

/// `serde_json::Error`, as an opaque value.
#[verifier::external_type_specification]
#[verifier::external_body]
pub struct ExError(serde_json::Error);

/// The document that a `serde_json::Value` holds: what [`json_from_value`]
/// makes of it.
pub uninterp spec fn value_document(value: serde_json::Value) -> JsonValue;

/// What `serde_json::from_str` makes of a text: the document it reads, or
/// `None` where it reports an error.
pub uninterp spec fn parsed_json(text: Seq<char>) -> Option<JsonValue>;

/// Calls `serde_json::from_str` for a `serde_json::Value`. Whether the call
/// succeeds, and with which document, depends on the text alone;
/// [`parsed_json`] names that outcome. Nothing else is claimed of it.
#[verifier::external_body]
fn value_from_str(text: &str) -> (parsed: Result<serde_json::Value, serde_json::Error>)
    ensures
        match parsed {
            Ok(value) => parsed_json(text@) == Some(value_document(value)),
            Err(_) => parsed_json(text@) is None,
        },
{
    serde_json::from_str::<serde_json::Value>(text)
}

/// Moves a `serde_json::Value` into a [`Json`] tree, variant by variant. A
/// number becomes what `serde_json::Number::as_u64` gives for it; the members
/// of an object come in the order in which `serde_json::Map` hands them out.
/// The result depends on the value alone; [`value_document`] names it.
#[verifier::external_body]
fn json_from_value(value: serde_json::Value) -> (json: Json)
    ensures
        json@ == value_document(value),
{
    match value {
        serde_json::Value::Null => Json::Null,
        serde_json::Value::Bool(b) => Json::Bool(b),
        serde_json::Value::Number(n) => Json::Number(n.as_u64()),
        serde_json::Value::String(s) => Json::Text(s),
        serde_json::Value::Array(a) => Json::Array(a.into_iter().map(json_from_value).collect()),
        serde_json::Value::Object(m) => Json::Object(
            m.into_iter().map(|(k, v)| (k, json_from_value(v))).collect(),
        ),
    }
}

/// Parses a text as JSON.
///
/// Returns the document where the text is valid JSON and `None` where it is not.
pub fn parse_json(text: &str) -> (parsed: Option<Json>)
    ensures
        match parsed {
            Some(json) => parsed_json(text@) == Some(json@),
            None => parsed_json(text@) is None,
        },
{
    match value_from_str(text) {
        Ok(value) => Some(json_from_value(value)),
        Err(_) => None,
    }
}

} // verus!
