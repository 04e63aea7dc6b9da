//! Reading JSON documents, which serde_json parses and holds.

use serde_json::Value;
use vstd::prelude::*;

verus! {

/// A JSON document, as far as this library reads one: texts, lists, and records of named fields.
/// Nothing is read off numbers, truth values and null.
pub enum Json {
    Text(Seq<char>),
    List(Seq<Json>),
    Record(Map<Seq<char>, Json>),
    Other,
}

/// The value of a field of a document, if it is a record that has the field.
pub open spec fn field(json: Json, key: Seq<char>) -> Json {
    match json {
        Json::Record(fields) => if fields.contains_key(key) {
            fields[key]
        } else {
            Json::Other
        },
        _ => Json::Other,
    }
}

/// serde_json's collection of JSON values.
#[verifier::external_type_specification]
#[verifier::external_body]
pub struct ExValue(serde_json::Value);

/// What a `serde_json::Value` holds: the items of an array are those of a list, the entries of an
/// object are the fields of a record, and a string is a text.
pub uninterp spec fn value_tree(value: Value) -> Json;

/// What `serde_json::from_str` makes of a text: what the value holds that the text stands for, or,
/// where the text is not JSON, the `Debug` form of the error.
pub uninterp spec fn json_from_str(text: Seq<char>) -> Result<Json, Seq<char>>;

/// `serde_json::from_str`, into a `serde_json::Value`. The error is handed on in its `Debug` form.
/// Which texts are JSON, and what they stand for, is not stated.
#[verifier::external_body]
pub(crate) fn parse(text: &str) -> (res: Result<Value, String>)
    ensures
        match res {
            Ok(value) => json_from_str(text@) == Ok::<Json, Seq<char>>(value_tree(value)),
            Err(reason) => json_from_str(text@) == Err::<Json, Seq<char>>(reason@),
        },
{
    serde_json::from_str::<Value>(text).map_err(|error| format!("{:?}", error))
}

/// Indexing a `serde_json::Value` with a string. It gives the entry of an object under that key,
/// and null where there is no such entry or where the value is no object.
#[verifier::external_body]
pub(crate) fn member<'a>(value: &'a Value, key: &str) -> (res: &'a Value)
    ensures
        value_tree(*res) == field(value_tree(*value), key@),
{
    &value[key]
}

/// `serde_json::Value::as_array`. It gives the items of an array, and nothing of any other value.
pub assume_specification[ serde_json::Value::as_array ](value: &Value) -> (res: Option<&Vec<Value>>)
    ensures
        match value_tree(*value) {
            Json::List(items) => {
                &&& res matches Some(values)
                &&& values@.len() == items.len()
                &&& forall|i: int| 0 <= i < items.len() ==> value_tree(#[trigger] values@[i]) == items[i]
            },
            _ => res is None,
        },
;

/// `serde_json::Value::as_str`. It gives the characters of a string, and nothing of any other value.
pub assume_specification[ serde_json::Value::as_str ](value: &Value) -> (res: Option<&str>)
    ensures
        match value_tree(*value) {
            Json::Text(chars) => res matches Some(text) && text@ == chars,
            _ => res is None,
        },
;

/// A field of a record is what the record has under that key. A record without the key has no such
/// field, and neither has what is no record.
pub proof fn fields_are_those_of_the_record(fields: Map<Seq<char>, Json>, json: Json, key: Seq<char>)
    ensures
        fields.contains_key(key) ==> field(Json::Record(fields), key) == fields[key],
        !fields.contains_key(key) ==> field(Json::Record(fields), key) == Json::Other,
        json !is Record ==> field(json, key) == Json::Other,
{
}

} // verus!
