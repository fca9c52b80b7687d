//! JSON objects: the arguments and results of generic function calls.
use crate::error::StoreError;
use vstd::prelude::*;

verus! {

/// `serde_json::Map`, carried through as it is; nothing inside it is read here.
#[verifier::external_type_specification]
#[verifier::external_body]
#[verifier::reject_recursive_types(K)]
#[verifier::reject_recursive_types(V)]
pub struct ExJsonMap<K, V>(serde_json::Map<K, V>);

/// `serde_json::Value`, the values of a JSON object; nothing inside it is read here.
#[verifier::external_type_specification]
#[verifier::external_body]
pub struct ExJsonValue(serde_json::Value);

/// `serde_json::Error`, of which only the words are used.
#[verifier::external_type_specification]
#[verifier::external_body]
pub struct ExJsonError(serde_json::Error);

/// A JSON object.
pub type JsonMap = serde_json::Map<String, serde_json::Value>;

/// What a JSON object holds: for each key the compact JSON text of its value.
pub uninterp spec fn json_entries(m: JsonMap) -> Map<Seq<char>, Seq<char>>;

/// What a text holds if it is read as one JSON object; `None` if it cannot be read so.
pub uninterp spec fn json_object_of(text: Seq<char>) -> Option<Map<Seq<char>, Seq<char>>>;

/// The compact JSON text of an object with the given entries, keys in ascending order.
pub uninterp spec fn json_text_of(entries: Map<Seq<char>, Seq<char>>) -> Seq<char>;

/// Calls `serde_json::from_str` for a `Map<String, Value>`. Taken on trust: whether the
/// text is read, and what the object then holds, depends on the text alone.
#[verifier::external_body]
fn read_json_map(text: &str) -> (r: Result<JsonMap, serde_json::Error>)
    ensures
        match r {
            Ok(m) => json_object_of(text@) == Some(json_entries(m)),
            Err(_) => json_object_of(text@).is_none(),
        },
{
    serde_json::from_str::<JsonMap>(text)
}

/// The words of a `serde_json::Error`, through its `Display`. Nothing is promised of them.
#[verifier::external_body]
fn json_error_text(e: &serde_json::Error) -> (r: String) {
    e.to_string()
}

/// Writes the object through the `Display` of `serde_json::Value`, which gives compact
/// JSON. Taken on trust: the text depends on the entries alone (the map keeps its keys
/// sorted).
#[verifier::external_body]
pub(crate) fn write_json_map(m: &JsonMap) -> (r: String)
    ensures
        r@ == json_text_of(json_entries(*m)),
{
    serde_json::Value::Object(m.clone()).to_string()
}

/// Reads a text as one JSON object.
pub fn parse_json_map(text: String) -> (r: Result<JsonMap, StoreError>)
    ensures
        match r {
            Ok(m) => json_object_of(text@) == Some(json_entries(m)),
            Err(e) => json_object_of(text@).is_none() && e is Parse,
        },
{
    match read_json_map(text.as_str()) {
        Ok(m) => Ok(m),
        Err(e) => Err(StoreError::Parse { message: json_error_text(&e) }),
    }
}

} // verus!
