//! The value codec: JSON text in both directions, and the scalar
//! stringification used by shell placeholder substitution.

use vstd::prelude::*;
use crate::decode::{parse_json_chars, sp_json};
use crate::encode::{print_int, print_jv, write_i64, write_value};
use crate::error::Error;
use crate::text::{chars_string, str_chars};
use crate::value::{Jv, Value};

verus! {

/// The stringification of a value for placeholder substitution: scalars as
/// bare text, arrays and objects as their JSON encoding.
pub open spec fn spec_stringify(v: Jv) -> Seq<char> {
    match v {
        Jv::Null => seq!['n', 'u', 'l', 'l'],
        Jv::Bool(b) => if b {
            seq!['t', 'r', 'u', 'e']
        } else {
            seq!['f', 'a', 'l', 's', 'e']
        },
        Jv::Number(n) => print_int(n as int),
        Jv::String(s) => s,
        Jv::Array(_) => print_jv(v),
        Jv::Object(_) => print_jv(v),
    }
}

/// The canonical JSON text of `v`.
pub fn to_json(v: &Value) -> (r: String)
    ensures
        r@ == print_jv(v.deep_view()),
{
    let mut out: Vec<char> = Vec::new();
    write_value(v, &mut out);
    proof {
        assert(Seq::<char>::empty() + print_jv(v.deep_view()) =~= print_jv(v.deep_view()));
    }
    chars_string(&out)
}

/// Parse `s` as one JSON document.
///
/// Returns the parsed value exactly when `s` is a JSON value (with optional
/// surrounding whitespace) whose numbers are integers fitting a signed
/// 64-bit word, and `MarshalError` otherwise.  Values are signed 64-bit, so
/// integers in the upper unsigned 64-bit range are rejected along with
/// floats.
pub fn from_json(s: &str) -> (r: Result<Value, Error>)
    ensures
        match sp_json(s@) {
            Some(jv) => r is Ok && r->Ok_0.deep_view() == jv,
            None => r matches Err(Error::MarshalError),
        },
{
    let cs = str_chars(s);
    match parse_json_chars(&cs) {
        Ok(v) => Ok(v),
        Err(_) => Err(Error::MarshalError),
    }
}

/// The text a value substitutes for its placeholder: `null`, `true` /
/// `false`, decimal digits, the raw string, or JSON for arrays and objects.
pub fn value_to_str(v: &Value) -> (r: String)
    ensures
        r@ == spec_stringify(v.deep_view()),
{
    match v {
        Value::Null => {
            let r = String::from_str("null");
            proof {
                reveal_strlit("null");
                assert(r@ =~= seq!['n', 'u', 'l', 'l']);
            }
            r
        },
        Value::Bool(b) => {
            if *b {
                let r = String::from_str("true");
                proof {
                    reveal_strlit("true");
                    assert(r@ =~= seq!['t', 'r', 'u', 'e']);
                }
                r
            } else {
                let r = String::from_str("false");
                proof {
                    reveal_strlit("false");
                    assert(r@ =~= seq!['f', 'a', 'l', 's', 'e']);
                }
                r
            }
        },
        Value::Number(n) => {
            let mut out: Vec<char> = Vec::new();
            write_i64(*n, &mut out);
            proof {
                assert(Seq::<char>::empty() + print_int(*n as int) =~= print_int(*n as int));
            }
            chars_string(&out)
        },
        Value::String(s) => s.clone(),
        Value::Array(_) => to_json(v),
        Value::Object(_) => to_json(v),
    }
}

} // verus!
