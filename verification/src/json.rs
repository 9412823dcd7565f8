//! JSON values, as the `serde_json` crate holds them, and the text of a value.

use serde_json::Value;
use vstd::prelude::*;

verus! {

/// Declares `serde_json::Value`, a JSON value of any kind.
#[verifier::external_type_specification]
#[verifier::external_body]
pub struct ExValue(serde_json::Value);

/// Declares `serde_json::Map`, the entries of a JSON object.
#[verifier::external_type_specification]
#[verifier::external_body]
#[verifier::reject_recursive_types(K)]
#[verifier::reject_recursive_types(V)]
pub struct ExObject<K, V>(serde_json::Map<K, V>);

/// Declares `serde_json::Error`, which says why a text is no JSON.
#[verifier::external_type_specification]
#[verifier::external_body]
pub struct ExJsonError(serde_json::Error);

/// What a `serde_json::Map` holds: its keys and values, in the order in which
/// it hands them out.
pub uninterp spec fn object_entries(object: serde_json::Map<String, Value>) -> Seq<
    (Seq<char>, Value),
>;

/// What `serde_json::from_str` makes of a text where a JSON object is asked
/// for: the entries of the object, or nothing if it refuses the text.
pub uninterp spec fn parsed_object(text: Seq<char>) -> Option<Seq<(Seq<char>, Value)>>;

/// What `Value::as_str` finds: the text of a JSON string, nothing in a value of
/// another kind.
pub uninterp spec fn string_content(value: Value) -> Option<Seq<char>>;

/// The JSON string that `Value::from` makes of a text.
pub uninterp spec fn string_value(text: Seq<char>) -> Value;

/// The JSON object that `Value::Object` makes of entries.
pub uninterp spec fn object_value(entries: Seq<(Seq<char>, Value)>) -> Value;

/// `entries` has an entry under `key`.
pub open spec fn has_key(entries: Seq<(Seq<char>, Value)>, key: Seq<char>) -> bool {
    exists|i: int| 0 <= i < entries.len() && #[trigger] entries[i].0 == key
}

/// Calls `serde_json::from_str` for a `serde_json::Map`. Whether it succeeds,
/// and with which entries, is settled by the text alone. Which texts it refuses
/// is left unsaid: those that are no JSON object, and those nested too deep.
#[verifier::external_body]
pub(crate) fn parse_object(text: &str) -> (object: Result<
    serde_json::Map<String, Value>,
    serde_json::Error,
>)
    ensures
        object is Ok <==> parsed_object(text@) is Some,
        object matches Ok(map) ==> parsed_object(text@) == Some(object_entries(map)),
{
    serde_json::from_str::<serde_json::Map<String, Value>>(text)
}

/// `Map::new`: the map holds nothing.
pub assume_specification[ serde_json::Map::<String, Value>::new ]() -> (object: serde_json::Map<
    String,
    Value,
>)
    ensures
        object_entries(object).len() == 0,
;

/// `Map::insert`, with the crate's feature that keeps entries in the order of
/// their insertion: a key that is not there yet comes last; the value under a
/// key that is there already gives way to the new one in its place, and is
/// handed back.
pub assume_specification[ serde_json::Map::<String, Value>::insert ](
    object: &mut serde_json::Map<String, Value>,
    key: String,
    value: Value,
) -> (replaced: Option<Value>)
    ensures
        !has_key(object_entries(*old(object)), key@) ==> object_entries(*final(object))
            == object_entries(*old(object)).push((key@, value)) && replaced is None,
        has_key(object_entries(*old(object)), key@) ==> object_entries(*final(object))
            == object_entries(*old(object)).map_values(
            |entry: (Seq<char>, Value)|
                if entry.0 == key@ {
                    (key@, value)
                } else {
                    entry
                },
        ),
        forall|i: int|
            0 <= i < object_entries(*old(object)).len() && (#[trigger] object_entries(
                *old(object),
            )[i]).0 == key@ ==> replaced == Some(object_entries(*old(object))[i].1),
;

/// Calls `Map::iter` and gathers what it hands out: each key with its value, in
/// the order of the map.
#[verifier::external_body]
pub(crate) fn object_pairs<'a>(object: &'a serde_json::Map<String, Value>) -> (pairs: Vec<
    (&'a String, &'a Value),
>)
    ensures
        pairs@.map_values(|pair: (&String, &Value)| (pair.0@, *pair.1)) == object_entries(*object),
{
    object.iter().collect()
}

/// `Value::as_str`: the text of a JSON string, nothing for another value.
pub assume_specification[ serde_json::Value::as_str ](value: &Value) -> (content: Option<&str>)
    ensures
        content is Some <==> string_content(*value) is Some,
        content matches Some(text) ==> string_content(*value) == Some(text@),
;

/// `Value::clone`: the same JSON value once more.
pub assume_specification[ <serde_json::Value as Clone>::clone ](value: &Value) -> (copy: Value)
    ensures
        copy == *value,
;

/// Calls `Value::from` on a string slice: a JSON string with that text.
#[verifier::external_body]
pub(crate) fn json_string(text: &str) -> (value: Value)
    ensures
        value == string_value(text@),
        string_content(value) == Some(text@),
{
    Value::from(text)
}

/// Makes a `Value::Object`: a JSON object with the entries of the map.
#[verifier::external_body]
pub(crate) fn json_object(object: serde_json::Map<String, Value>) -> (value: Value)
    ensures
        value == object_value(object_entries(object)),
{
    Value::Object(object)
}

/// `stringify` turns every JSON value into a text, and equal values into equal
/// texts.
pub open spec fn is_stringifier<S: Fn(&Value) -> String>(stringify: S) -> bool {
    &&& forall|value: &Value| #[trigger] stringify.requires((value,))
    &&& forall|value: &Value, a: String, b: String| #[trigger]
        stringify.ensures((value,), a) && #[trigger] stringify.ensures((value,), b) ==> a@ == b@
}

/// `stringify` has a text for `value`, so that [`json_text`] speaks of it.
pub open spec fn is_written<S: Fn(&Value) -> String>(stringify: S, value: Value) -> bool {
    exists|text: String| stringify.ensures((&value,), text)
}

/// The text that `stringify` gives for each JSON value.
pub open spec fn json_text<S: Fn(&Value) -> String>(stringify: S) -> spec_fn(Value) -> Seq<char> {
    |value: Value| (choose|text: String| stringify.ensures((&value,), text))@
}

/// The text of a JSON value is the one that `stringify` gives.
pub proof fn law_json_text<S: Fn(&Value) -> String>(stringify: S, value: Value, text: String)
    requires
        is_stringifier(stringify),
        stringify.ensures((&value,), text),
    ensures
        json_text(stringify)(value) == text@,
{
}

} // verus!
