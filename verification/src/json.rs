//! A concrete JSON tree and the trusted boundary that produces it.
//!
//! The external tool emits JSON text.  Parsing that text is delegated to
//! serde_json behind a small trusted surface; everything the library then
//! does with the parsed tree — shape resolution, defaults, flattening — is
//! verified code over the [`JsonValue`] type below.

use vstd::prelude::*;

verus! {

/// A parsed JSON value as plain data.
///
/// Numbers are kept only as far as the package metadata needs them: a number
/// that fits an `i64` is `Int`, any other number (fractional or out of
/// range) is `OtherNum` and is rejected wherever an integer is required.
/// Object entries keep the parser's (deterministic) entry order and carry
/// unique keys.
#[derive(Debug, PartialEq)]
pub enum JsonValue {
    Null,
    Bool(bool),
    Int(i64),
    OtherNum,
    Str(String),
    Arr(Vec<JsonValue>),
    Obj(Vec<(String, JsonValue)>),
}

/// The value stored under `key` in an object's entry list: the first entry
/// whose key has the characters of `key`, if any.
pub open spec fn obj_get(entries: Seq<(String, JsonValue)>, key: Seq<char>) -> Option<JsonValue>
    decreases entries.len(),
{
    if entries.len() == 0 {
        None
    } else if entries[0].0@ == key {
        Some(entries[0].1)
    } else {
        obj_get(entries.skip(1), key)
    }
}

/// The tree that parsing `text` as JSON yields, or `None` when the text is
/// malformed.  Parsing is a pure function of the text, so the result can be
/// given a name; what holds of it is stated only by the trusted items
/// below.
pub uninterp spec fn parsed_json(text: Seq<char>) -> Option<JsonValue>;

/// The [`JsonValue`] that a `serde_json::Value` tree stands for.
pub uninterp spec fn json_model(v: serde_json::Value) -> JsonValue;

#[verifier::external_type_specification]
#[verifier::external_body]
pub struct ExJsonRaw(serde_json::Value);

/// Relies on `serde_json::from_str::<serde_json::Value>`: deterministically
/// parses JSON text into a `Value` tree, `Err` exactly on malformed JSON.
/// The error message is the parser's description of the violation.
#[verifier::external_body]
fn parse_raw(text: &str) -> (r: Result<serde_json::Value, String>)
    ensures
        r is Ok <==> parsed_json(text@) is Some,
        r matches Ok(v) ==> parsed_json(text@) == Some(json_model(v)),
{
    match serde_json::from_str::<serde_json::Value>(text) {
        Ok(v) => Ok(v),
        Err(e) => Err(format!("{}", e)),
    }
}

/// Relies on the structure of `serde_json::Value` (and `Number::as_i64`,
/// which returns the exact value whenever it fits an `i64`): rebuilds the
/// tree as plain data, one variant each.  Object entries come from
/// `serde_json::Map::iter`, which (with default features) walks a `BTreeMap`
/// and is therefore a deterministic function of the tree, in sorted key
/// order with unique keys.
#[verifier::external_body]
fn model_of(v: &serde_json::Value) -> (r: JsonValue)
    ensures
        r == json_model(*v),
{
    match v {
        serde_json::Value::Null => JsonValue::Null,
        serde_json::Value::Bool(b) => JsonValue::Bool(*b),
        serde_json::Value::Number(n) => n.as_i64().map_or(JsonValue::OtherNum, JsonValue::Int),
        serde_json::Value::String(s) => JsonValue::Str(s.clone()),
        serde_json::Value::Array(a) => JsonValue::Arr(a.iter().map(model_of).collect()),
        serde_json::Value::Object(m) => JsonValue::Obj(
            m.iter().map(|(k, x)| (k.clone(), model_of(x))).collect(),
        ),
    }
}

/// Parses JSON text into the library's tree, or returns the parser's
/// description of why the text is malformed.
pub fn parse_json(text: &str) -> (r: Result<JsonValue, String>)
    ensures
        r matches Ok(v) ==> parsed_json(text@) == Some(v),
        r is Err <==> parsed_json(text@) is None,
{
    match parse_raw(text) {
        Ok(v) => Ok(model_of(&v)),
        Err(e) => Err(e),
    }
}

/// Looks `key` up in an object's entry list.
pub fn lookup<'a>(entries: &'a Vec<(String, JsonValue)>, key: &str) -> (r: Option<
    &'a JsonValue,
>)
    ensures
        match r {
            Some(v) => obj_get(entries@, key@) == Some(*v),
            None => obj_get(entries@, key@) is None,
        },
{
    let n = entries.len();
    let mut i: usize = 0;
    proof {
        assert(entries@.skip(0) =~= entries@);
    }
    while i < n
        invariant
            0 <= i <= n,
            n == entries@.len(),
            obj_get(entries@, key@) == obj_get(entries@.skip(i as int), key@),
        decreases n - i,
    {
        proof {
            assert(entries@.skip(i as int)[0] == entries@[i as int]);
            assert(entries@.skip(i as int).skip(1) =~= entries@.skip(i + 1));
        }
        if crate::text::str_eq(entries[i].0.as_str(), key) {
            return Some(&entries[i].1);
        }
        i = i + 1;
    }
    proof {
        assert(entries@.skip(i as int) =~= Seq::<(String, JsonValue)>::empty());
    }
    None
}

} // verus!
