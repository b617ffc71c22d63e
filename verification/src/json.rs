//! JSON objects of `serde_json`, as far as the library reads them.
//!
//! Callers hand over the icons of the shortcuts as JSON objects. The
//! library does not look into such an object itself: it asks `serde_json`
//! for the entries and for the text of each value. What it is told is
//! taken on trust and is stated here.

use vstd::prelude::*;

verus! {

/// `serde_json::Map`, the object of a JSON document.
#[verifier::external_type_specification]
#[verifier::external_body]
#[verifier::reject_recursive_types(K)]
#[verifier::reject_recursive_types(V)]
pub struct ExJsonMap<K, V>(serde_json::Map<K, V>);

/// `serde_json::Value`, a value of a JSON document.
#[verifier::external_type_specification]
#[verifier::external_body]
pub struct ExJsonValue(serde_json::Value);

/// What a JSON object holds: under each of its keys the text of the value,
/// where the value is a JSON string, and nothing where it is of another
/// kind.
pub uninterp spec fn json_texts(object: serde_json::Map<String, serde_json::Value>) -> Map<
    Seq<char>,
    Option<Seq<char>>,
>;

/// The text that an optional string stands for.
pub open spec fn text_of(text: Option<String>) -> Option<Seq<char>> {
    match text {
        Some(text) => Some(text@),
        None => None,
    }
}

/// `Map::iter` of `serde_json`, each value read with `Value::as_str`: the
/// entries of the object. Every entry listed is an entry of the object, and
/// every key of the object is listed. Nothing is said of the order.
#[verifier::external_body]
pub(crate) fn json_text_entries(object: &serde_json::Map<String, serde_json::Value>) -> (entries:
    Vec<(String, Option<String>)>)
    ensures
        forall|i: int|
            0 <= i < entries@.len() ==> json_texts(*object).contains_key(
                (#[trigger] entries@[i]).0@,
            ) && json_texts(*object)[entries@[i].0@] == text_of(entries@[i].1),
        forall|key: Seq<char>| #[trigger]
            json_texts(*object).contains_key(key) ==> exists|i: int|
                0 <= i < entries@.len() && (#[trigger] entries@[i]).0@ == key,
{
    object.iter().map(|(key, value)| (key.clone(), value.as_str().map(str::to_owned))).collect()
}

/// `Map::get` of `serde_json`, the value read with `Value::as_str`: what
/// the object holds under `key`, or nothing where it has no such key.
#[verifier::external_body]
pub(crate) fn json_text_at(object: &serde_json::Map<String, serde_json::Value>, key: &str) -> (text:
    Option<Option<String>>)
    ensures
        match text {
            Some(text) => json_texts(*object).contains_key(key@) && json_texts(*object)[key@]
                == text_of(text),
            None => !json_texts(*object).contains_key(key@),
        },
{
    object.get(key).map(|value| value.as_str().map(str::to_owned))
}

} // verus!
