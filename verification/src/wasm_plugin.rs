//! The wasm call protocol.
//!
//! One invocation moves one JSON document into the guest and one out.  The
//! host frames `{"params":[value?, args]}` as UTF-8 bytes, writes them at
//! the old end of linear memory after growing it, calls the entry point,
//! reads back an eight-byte `ReturnValues{ptr,len}` descriptor, bounds-checks
//! it, decodes the named range as UTF-8 JSON `{"result":…, "exception"?:…}`,
//! and frees the descriptor through `guest_free`.  The wasm runtime itself
//! is driven by the surrounding application; every decision of the protocol
//! — framing, growth, descriptor decoding, output interpretation — is
//! computed here.

use vstd::prelude::*;
use crate::ast::{Param, WasmDeclartion};
use crate::codec::to_json;
use crate::command::args_lookup;
use crate::error::Error;
use crate::text::string_from_utf8;
use crate::value::{clone_value, spec_lookup, Jv, Value};

verus! {

/// The eight-byte record a guest returns: where its output JSON lies.
#[derive(Debug)]
pub struct ReturnValues {
    pub ptr: u32,
    pub len: u32,
}

/// The shape a guest reports its own failures in.
#[derive(Debug)]
pub struct ErrorValue {
    pub reason: String,
}

/// The declared arguments, in declaration order, each with the caller's
/// value; undeclared arguments are dropped and unmatched parameters are
/// absent.
pub open spec fn spec_filter_params(params: Seq<Param>, args: Seq<(String, Value)>) -> Seq<
    (String, Value),
>
    decreases params.len(),
{
    if params.len() == 0 {
        Seq::empty()
    } else {
        let tail = spec_filter_params(params.drop_first(), args);
        match args_lookup(args, params[0].name@) {
            Some(v) => seq![(params[0].name, v)] + tail,
            None => tail,
        }
    }
}

/// The members of the filtered argument object, as a value model.
pub open spec fn pairs_model(pairs: Seq<(String, Value)>) -> Seq<(Seq<char>, Jv)> {
    Seq::new(pairs.len(), |i: int| (pairs[i].0@, pairs[i].1.deep_view()))
}

/// The framed input document: `{"params": [value?, args]}`.
pub open spec fn spec_input_frame(
    params: Seq<Param>,
    value: Option<Jv>,
    args: Seq<(String, Value)>,
) -> Jv {
    let argobj = Jv::Object(pairs_model(spec_filter_params(params, args)));
    let plist = match value {
        Some(v) => seq![v, argobj],
        None => seq![argobj],
    };
    Jv::Object(seq![("params"@, Jv::Array(plist))])
}

impl WasmDeclartion {
    /// Keep only the arguments whose names are declared parameters, in
    /// declaration order.
    pub fn filter_params(&self, args: &Vec<(String, Value)>) -> (r: Vec<(String, Value)>)
        ensures
            r.deep_view() == pairs_model(
                spec_filter_params(crate::ast::params_seq(self.params), args@),
            ),
    {
        let mut out: Vec<(String, Value)> = Vec::new();
        if self.params.is_none() {
            proof {
                assert(crate::ast::params_seq(self.params) =~= Seq::<Param>::empty());
                assert(out.deep_view() =~= pairs_model(
                    spec_filter_params(crate::ast::params_seq(self.params), args@),
                ));
            }
            return out;
        }
        let ps = self.params.as_ref().unwrap();
        let ghost goal = pairs_model(spec_filter_params(ps@, args@));
        proof {
            assert(crate::ast::params_seq(self.params) == ps@);
            assert(ps@.skip(0) =~= ps@);
            assert(pairs_model(out@) =~= Seq::<(Seq<char>, Jv)>::empty());
            assert(pairs_model(out@) + goal =~= goal);
        }
        let n = ps.len();
        for i in 0..n
            invariant
                n == ps@.len(),
                goal == pairs_model(spec_filter_params(ps@, args@)),
                pairs_model(out@) + pairs_model(spec_filter_params(ps@.skip(i as int), args@))
                    == goal,
            {
            proof {
                assert(ps@.skip(i as int)[0] == ps@[i as int]);
                assert(ps@.skip(i as int).drop_first() =~= ps@.skip(i + 1));
            }
            match crate::command::args_get(args, &ps[i].name) {
                Some(v) => {
                    let ghost snap = out@;
                    let ghost lk = args_lookup(args@, ps@[i as int].name@)->0;
                    out.push((ps[i].name.clone(), clone_value(v)));
                    proof {
                        let last = out@[out@.len() - 1];
                        assert(last.0@ == ps@[i as int].name@);
                        assert(last.1.deep_view() == lk.deep_view());
                        assert(out@ =~= snap.push(last));
                        assert(pairs_model(out@) =~= pairs_model(snap).push(
                            (ps@[i as int].name@, lk.deep_view()),
                        ));
                        let tail = spec_filter_params(ps@.skip(i + 1), args@);
                        assert(spec_filter_params(ps@.skip(i as int), args@) == seq![
                            (ps@[i as int].name, lk),
                        ] + tail);
                        assert(pairs_model(seq![(ps@[i as int].name, lk)] + tail)
                            =~= seq![(ps@[i as int].name@, lk.deep_view())] + pairs_model(tail));
                        assert(pairs_model(out@) + pairs_model(tail) =~= (pairs_model(snap)
                            + (seq![(ps@[i as int].name@, lk.deep_view())] + pairs_model(tail))));
                    }
                },
                None => {},
            }
        }
        proof {
            assert(ps@.skip(n as int) =~= Seq::<Param>::empty());
            assert(pairs_model(spec_filter_params(ps@.skip(n as int), args@)) =~= Seq::<
                (Seq<char>, Jv),
            >::empty());
            assert(pairs_model(out@) + Seq::<(Seq<char>, Jv)>::empty() =~= pairs_model(out@));
            assert(out.deep_view() =~= pairs_model(out@));
        }
        out
    }
}


/// Build the framed input bytes for one invocation: the UTF-8 encoding of
/// `{"params":[value?, args]}` with the arguments filtered to the declared
/// parameters.
pub fn wasm_input_frame(
    decl: &WasmDeclartion,
    args: &Vec<(String, Value)>,
    value: Option<&Value>,
) -> (r: Vec<u8>)
    ensures
        r@ == vstd::utf8::encode_utf8(
            crate::encode::print_jv(
                spec_input_frame(
                    crate::ast::params_seq(decl.params),
                    match value {
                        Some(v) => Some(v.deep_view()),
                        None => None,
                    },
                    args@,
                ),
            ),
        ),
{
    let filtered = decl.filter_params(args);
    let ghost fmodel = filtered.deep_view();
    proof {
        crate::value::lemma_jv_of_object(filtered);
    }
    let argobj = Value::Object(filtered);
    let mut plist: Vec<Value> = Vec::new();
    match value {
        Some(v) => {
            plist.push(clone_value(v));
        },
        None => {},
    }
    plist.push(argobj);
    let mut top: Vec<(String, Value)> = Vec::new();
    let params_key = String::from_str("params");
    top.push((params_key, Value::Array(plist)));
    let frame = Value::Object(top);
    proof {
        crate::value::lemma_jv_of_object(top);
        crate::value::lemma_jv_of_array(plist);
        let ghost vmodel = match value {
            Some(v) => Some(v.deep_view()),
            None => None,
        };
        let ghost sf = spec_input_frame(crate::ast::params_seq(decl.params), vmodel, args@);
        assert(plist.deep_view() =~= sf->Object_0[0].1->Array_0);
        assert(top.deep_view() =~= sf->Object_0);
        assert(frame.deep_view() == sf);
    }
    let text = to_json(&frame);
    text.as_str().as_bytes_vec()
}

impl crate::ast::WasmFunction {
    /// The input bytes this function hands its guest for the given
    /// arguments.
    pub fn input_frame(&self, args: &Vec<(String, Value)>) -> (r: Vec<u8>)
        ensures
            r@ == vstd::utf8::encode_utf8(
                crate::encode::print_jv(
                    spec_input_frame(crate::ast::params_seq(self.decl.params), None, args@),
                ),
            ),
    {
        wasm_input_frame(&self.decl, args, None)
    }
}

impl crate::ast::WasmFilter {
    /// The input bytes this filter hands its guest: the pipeline value
    /// first, then the filtered arguments.
    pub fn input_frame(&self, value: &Value, args: &Vec<(String, Value)>) -> (r: Vec<u8>)
        ensures
            r@ == vstd::utf8::encode_utf8(
                crate::encode::print_jv(
                    spec_input_frame(
                        crate::ast::params_seq(self.decl.params),
                        Some(value.deep_view()),
                        args@,
                    ),
                ),
            ),
    {
        wasm_input_frame(&self.decl, args, Some(value))
    }
}

/// The little-endian 32-bit word at offset `off`.
pub open spec fn le32_at(b: Seq<u8>, off: int) -> int {
    b[off] + b[off + 1] * 0x100 + b[off + 2] * 0x10000 + b[off + 3] * 0x1000000
}

/// Decode the eight-byte return descriptor: two little-endian 32-bit
/// words, pointer then length.  Anything but eight bytes is a trap.
pub fn parse_return_values(bytes: &Vec<u8>) -> (r: Result<ReturnValues, Error>)
    ensures
        bytes@.len() == 8 ==> (r matches Ok(rv) && rv.ptr as int == le32_at(bytes@, 0)
            && rv.len as int == le32_at(bytes@, 4)),
        bytes@.len() != 8 ==> (r matches Err(Error::WasmTrap)),
{
    if bytes.len() != 8 {
        return Err(Error::WasmTrap);
    }
    let ptr = bytes[0] as u32 + bytes[1] as u32 * 0x100 + bytes[2] as u32 * 0x10000 + bytes[3]
        as u32 * 0x1000000;
    let len = bytes[4] as u32 + bytes[5] as u32 * 0x100 + bytes[6] as u32 * 0x10000 + bytes[7]
        as u32 * 0x1000000;
    Ok(ReturnValues { ptr, len })
}

/// Whether the descriptor's range lies within the guest's memory.
pub fn descriptor_in_bounds(rv: &ReturnValues, mem_size: u64) -> (r: bool)
    ensures
        r == (rv.ptr as int + rv.len as int <= mem_size as int),
{
    rv.ptr as u64 + rv.len as u64 <= mem_size
}

/// Page-rounding never undershoots nor wastes a whole page.
proof fn lemma_page_round(len: int)
    requires
        0 <= len,
    ensures
        ((len + 0xFFFF) / 0x10000) * 0x10000 >= len,
        ((len + 0xFFFF) / 0x10000) * 0x10000 <= len + 0xFFFF,
{
    vstd::arithmetic::div_mod::lemma_fundamental_div_mod(len + 0xFFFF, 0x10000);
    vstd::arithmetic::div_mod::lemma_mod_division_less_than_divisor(len + 0xFFFF, 0x10000);
}

/// How many 64 KiB pages to grow the guest's memory by so that the input
/// fits after the current end.
pub fn pages_for_input(len: u64) -> (r: u64)
    requires
        len <= 0xFFFFFFFFFFFF0000,
    ensures
        r as int * 0x10000 >= len as int,
        r as int * 0x10000 <= len as int + 0xFFFF,
{
    proof {
        lemma_page_round(len as int);
    }
    (len + 0xFFFF) / 0x10000
}

/// The three ways a guest's output bytes can be read.
pub enum OutcomeModel {
    /// A well-formed output whose `result` member is this value.
    Value(Jv),
    /// A well-formed output carrying a non-empty `exception` string.
    Guest(Seq<char>),
    /// Not UTF-8, not JSON, not an object, a non-string exception, or no
    /// `result` member.
    Marshal,
}

/// What the guest's output bytes mean: UTF-8 JSON `{"result": …,
/// "exception"?: …}`.  Only a non-empty string `exception` fails the call
/// — the error kind is defined by the output carrying a *non-empty*
/// exception — so an empty string or a null there counts as absent and the
/// `result` member is returned; any other type there is malformed.
pub open spec fn spec_decode_output(bytes: Seq<u8>) -> OutcomeModel {
    if !vstd::utf8::valid_utf8(bytes) {
        OutcomeModel::Marshal
    } else {
        match crate::decode::sp_json(vstd::utf8::decode_utf8(bytes)) {
            None => OutcomeModel::Marshal,
            Some(jv) => match jv {
                Jv::Object(ms) => {
                    let exc = spec_lookup(ms, "exception"@);
                    if exc matches Some(Jv::String(e)) && e.len() > 0 {
                        OutcomeModel::Guest(exc->0->String_0)
                    } else if exc matches Some(Jv::String(e)) || exc matches Some(Jv::Null) || exc
                        is None {
                        match spec_lookup(ms, "result"@) {
                            Some(v) => OutcomeModel::Value(v),
                            None => OutcomeModel::Marshal,
                        }
                    } else {
                        OutcomeModel::Marshal
                    }
                },
                _ => OutcomeModel::Marshal,
            },
        }
    }
}

/// Decode a guest's output bytes into the call's outcome.
pub fn decode_wasm_output(bytes: Vec<u8>) -> (r: Result<Value, Error>)
    ensures
        match spec_decode_output(bytes@) {
            OutcomeModel::Value(jv) => r matches Ok(v) && v.deep_view() == jv,
            OutcomeModel::Guest(e) => r matches Err(Error::GuestError(s)) && s@ == e,
            OutcomeModel::Marshal => r matches Err(Error::MarshalError),
        },
{
    let text = match string_from_utf8(bytes) {
        Some(t) => t,
        None => {
            return Err(Error::MarshalError);
        },
    };
    let v = match crate::codec::from_json(text.as_str()) {
        Ok(v) => v,
        Err(_) => {
            return Err(Error::MarshalError);
        },
    };
    match &v {
        Value::Object(_) => {},
        _ => {
            return Err(Error::MarshalError);
        },
    }
    match v.get("exception") {
        Some(ev) => match ev {
            Value::String(e) => {
                if !e.as_str().is_empty() {
                    return Err(Error::GuestError(e.clone()));
                }
            },
            Value::Null => {},
            _ => {
                return Err(Error::MarshalError);
            },
        },
        None => {},
    }
    match v.get("result") {
        Some(rv) => Ok(clone_value(rv)),
        None => Err(Error::MarshalError),
    }
}

} // verus!
