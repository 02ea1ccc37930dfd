//! Trusted boundary to serde_json. JSON documents are opaque to the
//! core: these wrappers move data between opaque `serde_json::Value`s
//! and the plain values the verified logic works on, and nothing else.
//!
//! Every wrapped call is a fixed function of its arguments, so each
//! result carries a name (an uninterpreted spec function); the codec's
//! contracts are exact over those names.

use vstd::prelude::*;

verus! {

#[verifier::external_type_specification]
#[verifier::external_body]
pub struct ExValue(serde_json::Value);

#[verifier::external_type_specification]
#[verifier::external_body]
pub struct ExJsonError(serde_json::Error);

/// View of an owned entry list as key text paired with the value.
pub open spec fn entries_view(s: Seq<(String, serde_json::Value)>) -> Seq<
    (Seq<char>, serde_json::Value),
> {
    s.map_values(|e: (String, serde_json::Value)| (e.0@, e.1))
}

/// Whether `serde_json::from_slice` accepts `bytes` as a JSON document:
/// a fixed function of the bytes alone.
pub uninterp spec fn json_wellformed(bytes: Seq<u8>) -> bool;

/// The value `serde_json::from_slice` parses well-formed `bytes` to.
pub uninterp spec fn json_value_of(bytes: Seq<u8>) -> serde_json::Value;

/// What `serde_json::Value::get` returns for a value and a key.
pub uninterp spec fn json_field(v: serde_json::Value, key: Seq<char>) -> Option<serde_json::Value>;

/// The text of a JSON string, per `serde_json::Value::as_str`; `None`
/// for any other kind of value.
pub uninterp spec fn json_text(v: serde_json::Value) -> Option<Seq<char>>;

/// The elements of a JSON array, per `serde_json::Value::as_array`;
/// `None` for any other kind of value.
pub uninterp spec fn json_elements(v: serde_json::Value) -> Option<Seq<serde_json::Value>>;

/// The entries of a JSON object in iteration order, per
/// `serde_json::Value::as_object`; `None` for non-objects.
pub uninterp spec fn json_entries(v: serde_json::Value) -> Option<
    Seq<(Seq<char>, serde_json::Value)>,
>;

/// The object `serde_json::Map` collects the given entries into,
/// wrapped as a `serde_json::Value::Object`.
pub uninterp spec fn json_object_of(entries: Seq<(Seq<char>, serde_json::Value)>) -> serde_json::Value;

/// The array `serde_json::Value::Array` builds of the given elements.
pub uninterp spec fn json_array_of(items: Seq<serde_json::Value>) -> serde_json::Value;

/// The string value `serde_json::Value::String` builds of the given text.
pub uninterp spec fn json_string_of(s: Seq<char>) -> serde_json::Value;

/// The bytes `serde_json::to_vec` serializes a value to.
pub uninterp spec fn json_bytes_of(v: serde_json::Value) -> Seq<u8>;

/// Relies on serde_json::from_slice: parsing a `Value` succeeds exactly
/// on well-formed JSON, deterministically in the input bytes, and the
/// parsed value is a fixed function of them.
#[verifier::external_body]
pub(crate) fn json_parse(bytes: &[u8]) -> (r: Result<serde_json::Value, serde_json::Error>)
    ensures
        r is Ok <==> json_wellformed(bytes@),
        r is Ok ==> r->Ok_0 == json_value_of(bytes@),
{
    serde_json::from_slice(bytes)
}

/// Relies on serde_json::Value::get: looks a key up in an object,
/// `None` on non-objects and absent keys, deterministically.
#[verifier::external_body]
pub(crate) fn json_get<'a>(v: &'a serde_json::Value, key: &str) -> (r: Option<
    &'a serde_json::Value,
>)
    ensures
        match r {
            Some(f) => json_field(*v, key@) == Some(*f),
            None => json_field(*v, key@) is None,
        },
{
    v.get(key)
}

/// Relies on serde_json::Value::as_str: the text of a JSON string,
/// `None` for any other kind of value.
#[verifier::external_body]
pub(crate) fn json_as_string(v: &serde_json::Value) -> (r: Option<String>)
    ensures
        match r {
            Some(s) => json_text(*v) == Some(s@),
            None => json_text(*v) is None,
        },
{
    v.as_str().map(|s| s.to_owned())
}

/// Relies on serde_json::Value::as_array: the elements of a JSON
/// array, `None` for any other kind of value.
#[verifier::external_body]
pub(crate) fn json_as_array(v: &serde_json::Value) -> (r: Option<Vec<serde_json::Value>>)
    ensures
        match r {
            Some(a) => json_elements(*v) == Some(a@),
            None => json_elements(*v) is None,
        },
{
    v.as_array().map(|a| a.clone())
}

/// Relies on serde_json::Value::as_object: the key/value entries of a
/// JSON object in its iteration order, `None` for non-objects.
#[verifier::external_body]
pub(crate) fn json_object_entries(v: &serde_json::Value) -> (r: Option<
    Vec<(String, serde_json::Value)>,
>)
    ensures
        match r {
            Some(e) => json_entries(*v) == Some(entries_view(e@)),
            None => json_entries(*v) is None,
        },
{
    v.as_object().map(|m| m.iter().map(|(k, x)| (k.clone(), x.clone())).collect())
}

/// Relies on serde_json::Value::clone: an identical copy of the value.
#[verifier::external_body]
pub(crate) fn json_clone(v: &serde_json::Value) -> (r: serde_json::Value)
    ensures
        r == *v,
{
    v.clone()
}

/// Relies on serde_json::Map::insert and serde_json::Value::Object:
/// builds the JSON object the given entries collect into, a fixed
/// function of the entry list.
#[verifier::external_body]
pub(crate) fn json_make_object(entries: Vec<(String, serde_json::Value)>) -> (r: serde_json::Value)
    ensures
        r == json_object_of(entries_view(entries@)),
{
    let mut m = serde_json::Map::new();
    for (k, v) in entries {
        m.insert(k, v);
    }
    serde_json::Value::Object(m)
}

/// Relies on serde_json::Value::Array: builds a JSON array of the
/// given elements in order.
#[verifier::external_body]
pub(crate) fn json_make_array(items: Vec<serde_json::Value>) -> (r: serde_json::Value)
    ensures
        r == json_array_of(items@),
{
    serde_json::Value::Array(items)
}

/// Relies on serde_json::Value::String: builds a JSON string.
#[verifier::external_body]
pub(crate) fn json_make_string(s: String) -> (r: serde_json::Value)
    ensures
        r == json_string_of(s@),
{
    serde_json::Value::String(s)
}

/// Relies on serde_json::to_vec: serializes a JSON value to bytes, a
/// fixed function of the value. It always succeeds on a `Value`: its
/// `Serialize` impl only emits primitives, strings and string-keyed
/// maps, and the `Vec<u8>` writer never fails.
#[verifier::external_body]
pub(crate) fn json_to_bytes(v: &serde_json::Value) -> (r: Result<Vec<u8>, serde_json::Error>)
    ensures
        r is Ok,
        r is Ok ==> r->Ok_0@ == json_bytes_of(*v),
{
    serde_json::to_vec(v)
}

} // verus!
