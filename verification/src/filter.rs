//! The built-in template filters.
//!
//! `to_object` pairs up a flat array into an object; `from_json`,
//! `from_yaml` and `from_toml` parse a string into an object.  YAML and
//! TOML are read through the corresponding parser crates, converted to
//! JSON text, and decoded by the crate's own verified JSON parser; a
//! document whose top level is not an object is rejected.

use vstd::prelude::*;
use crate::decode::sp_json;
use crate::error::Error;
use crate::value::{clone_value, Jv, Value};

verus! {

/// What the YAML parser turns a document into, rendered as JSON text;
/// `None` when the document does not parse or cannot be represented.
pub uninterp spec fn yaml_as_json(s: Seq<char>) -> Option<Seq<char>>;

/// Relies on `serde_yaml::from_str` (to `serde_json::Value`) and
/// `serde_json::to_string`: a YAML document read into a JSON value and
/// rendered as JSON text; the outcome depends on the text alone.
#[verifier::external_body]
pub(crate) fn yaml_json_text(s: &str) -> (r: Option<String>)
    ensures
        r is Some <==> yaml_as_json(s@) is Some,
        r is Some ==> r->0@ == yaml_as_json(s@)->0,
{
    serde_yaml::from_str::<serde_json::Value>(s).ok().and_then(|v| serde_json::to_string(&v).ok())
}

/// What the TOML parser turns a document into, rendered as JSON text;
/// `None` when the document does not parse or cannot be represented.
pub uninterp spec fn toml_as_json(s: Seq<char>) -> Option<Seq<char>>;

/// Relies on `toml::from_str` (to `serde_json::Value`) and
/// `serde_json::to_string`: a TOML document read into a JSON value and
/// rendered as JSON text; the outcome depends on the text alone.
#[verifier::external_body]
fn toml_json_text(s: &str) -> (r: Option<String>)
    ensures
        r is Some <==> toml_as_json(s@) is Some,
        r is Some ==> r->0@ == toml_as_json(s@)->0,
{
    toml::from_str::<serde_json::Value>(s).ok().and_then(|v| serde_json::to_string(&v).ok())
}

/// Whether a flat array can be paired up into an object: an even number
/// of elements, every even position a string key.
pub open spec fn pairable(es: Seq<Jv>) -> bool {
    es.len() % 2 == 0 && (forall|k: int|
        0 <= k < es.len() / 2 ==> (#[trigger] es[2 * k]) is String)
}

/// The object formed by pairing up a flat array.
pub open spec fn spec_to_object(es: Seq<Jv>) -> Jv {
    Jv::Object(Seq::new(es.len() / 2, |k: int| (es[2 * k]->String_0, es[2 * k + 1])))
}

/// Pair a flat array `[key1, val1, key2, val2, …]` into an object.
///
/// A repeated key keeps both pairs in order; a lookup on the result takes
/// the later one, as a map insertion would.  Fails with `MarshalError`
/// when the value is not an array, the length is odd, or a key position
/// holds a non-string.
pub fn to_object(value: &Value) -> (r: Result<Value, Error>)
    ensures
        match value.deep_view() {
            Jv::Array(es) => {
                if pairable(es) {
                    r matches Ok(v) && v.deep_view() == spec_to_object(es)
                } else {
                    r matches Err(Error::MarshalError)
                }
            },
            _ => r matches Err(Error::MarshalError),
        },
{
    let arr = match value {
        Value::Array(a) => a,
        _ => {
            return Err(Error::MarshalError);
        },
    };
    let ghost es = value.deep_view()->Array_0;
    proof {
        assert(es == arr.deep_view());
        assert(es.len() == arr@.len());
    }
    let n = arr.len();
    if n % 2 != 0 {
        return Err(Error::MarshalError);
    }
    let mut out: Vec<(String, Value)> = Vec::new();
    let mut i: usize = 0;
    while i + 1 < n + 1
        invariant
            n == arr@.len(),
            n % 2 == 0,
            i % 2 == 0,
            i <= n,
            es == arr.deep_view(),
            es == value.deep_view()->Array_0,
            value.deep_view() is Array,
            out@.len() == i / 2,
            forall|k: int| 0 <= k < i / 2 ==> (#[trigger] es[2 * k]) is String,
            forall|k: int|
                0 <= k < i / 2 ==> (#[trigger] out.deep_view()[k]) == (
                es[2 * k]->String_0,
                es[2 * k + 1],
            ),
        decreases n - i,
    {
        proof {
            assert(es[i as int] == arr@[i as int].deep_view());
            assert(es[i + 1] == arr@[i + 1].deep_view());
        }
        let key = match &arr[i] {
            Value::String(s) => s.clone(),
            _ => {
                proof {
                    assert(!(es[2 * ((i as int) / 2)] is String));
                    assert(!pairable(es));
                }
                return Err(Error::MarshalError);
            },
        };
        let v = clone_value(&arr[i + 1]);
        let ghost snap = out.deep_view();
        out.push((key, v));
        proof {
            assert(out.deep_view() =~= snap.push((key@, v.deep_view())));
            assert(key@ == es[i as int]->String_0);
            assert(v.deep_view() == es[i + 1]);
            assert(2 * ((i as int) / 2) == i as int);
            assert((i as int + 2) / 2 == (i as int) / 2 + 1);
        }
        i = i + 2;
    }
    proof {
        assert(pairable(es));
        assert(out.deep_view() =~= spec_to_object(es)->Object_0);
        crate::value::lemma_jv_of_object(out);
    }
    Ok(Value::Object(out))
}

/// Decode a JSON document that must be an object.
fn object_from_json_text(s: &str) -> (r: Result<Value, Error>)
    ensures
        match sp_json(s@) {
            Some(jv) => {
                if jv is Object {
                    r matches Ok(v) && v.deep_view() == jv
                } else {
                    r matches Err(Error::MarshalError)
                }
            },
            None => r matches Err(Error::MarshalError),
        },
{
    match crate::codec::from_json(s) {
        Ok(v) => {
            let is_obj = match &v {
                Value::Object(_) => true,
                _ => false,
            };
            if is_obj {
                Ok(v)
            } else {
                Err(Error::MarshalError)
            }
        },
        Err(_) => Err(Error::MarshalError),
    }
}

/// Parse a string value as JSON; the document must be an object.
pub fn from_json_filter(value: &Value) -> (r: Result<Value, Error>)
    ensures
        match value.deep_view() {
            Jv::String(s) => match sp_json(s) {
                Some(jv) => {
                    if jv is Object {
                        r matches Ok(v) && v.deep_view() == jv
                    } else {
                        r matches Err(Error::MarshalError)
                    }
                },
                None => r matches Err(Error::MarshalError),
            },
            _ => r matches Err(Error::MarshalError),
        },
{
    match value {
        Value::String(s) => object_from_json_text(s.as_str()),
        _ => Err(Error::MarshalError),
    }
}

/// Parse a string value as YAML; the document must come out as an object.
pub fn from_yaml_filter(value: &Value) -> (r: Result<Value, Error>)
    ensures
        match value.deep_view() {
            Jv::String(s) => match yaml_as_json(s) {
                Some(txt) => match sp_json(txt) {
                    Some(jv) => {
                        if jv is Object {
                            r matches Ok(v) && v.deep_view() == jv
                        } else {
                            r matches Err(Error::MarshalError)
                        }
                    },
                    None => r matches Err(Error::MarshalError),
                },
                None => r matches Err(Error::MarshalError),
            },
            _ => r matches Err(Error::MarshalError),
        },
{
    match value {
        Value::String(s) => match yaml_json_text(s.as_str()) {
            Some(txt) => object_from_json_text(txt.as_str()),
            None => Err(Error::MarshalError),
        },
        _ => Err(Error::MarshalError),
    }
}

/// Parse a string value as TOML; the document must come out as an object.
pub fn from_toml_filter(value: &Value) -> (r: Result<Value, Error>)
    ensures
        match value.deep_view() {
            Jv::String(s) => match toml_as_json(s) {
                Some(txt) => match sp_json(txt) {
                    Some(jv) => {
                        if jv is Object {
                            r matches Ok(v) && v.deep_view() == jv
                        } else {
                            r matches Err(Error::MarshalError)
                        }
                    },
                    None => r matches Err(Error::MarshalError),
                },
                None => r matches Err(Error::MarshalError),
            },
            _ => r matches Err(Error::MarshalError),
        },
{
    match value {
        Value::String(s) => match toml_json_text(s.as_str()) {
            Some(txt) => object_from_json_text(txt.as_str()),
            None => Err(Error::MarshalError),
        },
        _ => Err(Error::MarshalError),
    }
}

} // verus!
