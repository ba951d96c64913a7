//! Parsing inverts printing.
//!
//! The law at the bottom, [`lemma_json_round_trip`], states that the
//! canonical JSON text of any value model parses back to exactly that
//! model.  Together with the contracts of [`crate::to_json`] and
//! [`crate::from_json`] it gives the executable round trip.

use vstd::prelude::*;
use crate::value::Jv;
use crate::encode::{
    dec_digits,
    digit_char,
    digit_val,
    esc_char,
    esc_str,
    hex_char,
    is_digit,
    print_elems,
    print_int,
    print_jv,
    print_member,
    print_members,
};
use crate::decode::{
    count_digits,
    digits_val,
    hex_val,
    is_hex,
    is_scalar,
    is_ws,
    skip_ws,
    sp_elems,
    sp_json,
    sp_members,
    sp_number,
    sp_string_rest,
    sp_value,
    unescape,
};

verus! {

/// A decimal digit character is a digit and denotes its value.
proof fn lemma_digit_char_val(d: int)
    requires
        0 <= d <= 9,
    ensures
        is_digit(digit_char(d)),
        digit_val(digit_char(d)) == d,
{
}

/// A hexadecimal digit character is one and denotes its value.
proof fn lemma_hex_char_val(d: int)
    requires
        0 <= d <= 15,
    ensures
        is_hex(hex_char(d)),
        hex_val(hex_char(d)) == d,
{
}

/// A positive number's decimal text does not start with a zero.
proof fn lemma_dec_digits_no_leading_zero(n: nat)
    requires
        n >= 1,
    ensures
        dec_digits(n)[0] != '0',
    decreases n,
{
    if n < 10 {
    } else {
        lemma_dec_digits_no_leading_zero(n / 10);
        lemma_dec_digits_digits(n / 10);
        assert(dec_digits(n)[0] == dec_digits(n / 10)[0]);
    }
}

/// The decimal digits of `n` are at least one, and all digits.
proof fn lemma_dec_digits_digits(n: nat)
    ensures
        dec_digits(n).len() >= 1,
        forall|i: int| 0 <= i < dec_digits(n).len() ==> is_digit(#[trigger] dec_digits(n)[i]),
    decreases n,
{
    if n < 10 {
        lemma_digit_char_val(n as int);
    } else {
        lemma_dec_digits_digits(n / 10);
        lemma_digit_char_val((n % 10) as int);
        let ds = dec_digits(n);
        let hd = dec_digits(n / 10);
        assert forall|i: int| 0 <= i < ds.len() implies is_digit(#[trigger] ds[i]) by {
            if i < hd.len() {
                assert(ds[i] == hd[i]);
            } else {
                assert(ds[i] == digit_char((n % 10) as int));
            }
        }
    }
}

/// The decimal digits of `n` denote `n`.
proof fn lemma_digits_val_of_dec(n: nat)
    ensures
        digits_val(dec_digits(n)) == n,
    decreases n,
{
    if n < 10 {
        lemma_digit_char_val(n as int);
        let ds = dec_digits(n);
        assert(ds.len() == 1);
        assert(ds.last() == digit_char(n as int));
        assert(ds.drop_last() =~= Seq::<char>::empty());
        assert(digits_val(ds.drop_last()) == 0);
        assert(digits_val(ds) == 0 * 10 + digit_val(digit_char(n as int)));
    } else {
        lemma_digits_val_of_dec(n / 10);
        lemma_digit_char_val((n % 10) as int);
        vstd::arithmetic::div_mod::lemma_fundamental_div_mod(n as int, 10);
        let ds = dec_digits(n);
        assert(ds.drop_last() =~= dec_digits(n / 10));
        assert(ds.last() == digit_char((n % 10) as int));
        assert((n as int) / 10 == (n / 10) as int);
        assert((n as int) % 10 == (n % 10) as int);
        assert(digits_val(ds) == digits_val(dec_digits(n / 10)) * 10 + digit_val(
            digit_char((n % 10) as int),
        ));
        assert(digits_val(ds) == ((n / 10) as int) * 10 + (n % 10) as int);
    }
}

/// A run of digits followed by a non-digit counts exactly its own length.
proof fn lemma_count_digits_concat(ds: Seq<char>, rest: Seq<char>)
    requires
        forall|i: int| 0 <= i < ds.len() ==> is_digit(#[trigger] ds[i]),
        rest.len() == 0 || !is_digit(rest[0]),
    ensures
        count_digits(ds + rest) == ds.len(),
    decreases ds.len(),
{
    if ds.len() == 0 {
        assert(ds + rest =~= rest);
    } else {
        lemma_count_digits_concat(ds.drop_first(), rest);
        assert((ds + rest).drop_first() =~= ds.drop_first() + rest);
        assert((ds + rest)[0] == ds[0]);
    }
}

/// The printed decimal text of an integer parses back to that number.
#[verifier::rlimit(60)]
proof fn lemma_number_round(n: i64, rest: Seq<char>)
    requires
        rest.len() == 0 || !is_digit(rest[0]),
    ensures
        sp_number(print_int(n as int) + rest) == Some((Jv::Number(n), rest)),
{
    if n >= 0 {
        let ds = dec_digits(n as nat);
        lemma_dec_digits_digits(n as nat);
        lemma_digits_val_of_dec(n as nat);
        lemma_count_digits_concat(ds, rest);
        let s = print_int(n as int) + rest;
        assert(s =~= ds + rest);
        assert(s[0] == ds[0]);
        assert(s[0] != '-');
        let k = count_digits(s);
        assert(k == ds.len());
        if n == 0 {
            assert(k == 1);
        } else {
            lemma_dec_digits_no_leading_zero(n as nat);
            assert(s[0] != '0');
        }
        assert(s.take(k as int) =~= ds);
        assert(s.skip(k as int) =~= rest);
    } else {
        let m = (-(n as int)) as nat;
        let ds = dec_digits(m);
        lemma_dec_digits_digits(m);
        lemma_digits_val_of_dec(m);
        lemma_count_digits_concat(ds, rest);
        let s = print_int(n as int) + rest;
        assert(s[0] == '-');
        let t = s.drop_first();
        assert(t =~= ds + rest);
        let k = count_digits(t);
        assert(k == ds.len());
        assert(t[0] == ds[0]);
        lemma_dec_digits_no_leading_zero(m);
        assert(t[0] != '0');
        assert(t.take(k as int) =~= ds);
        assert(t.skip(k as int) =~= rest);
        assert(digits_val(t.take(k as int)) == m);
    }
}

/// The escaped body of a string, closed by a quote, parses back to the
/// string.
proof fn lemma_string_round(cs: Seq<char>, rest: Seq<char>)
    ensures
        sp_string_rest(esc_str(cs) + seq!['"'] + rest) == Some((cs, rest)),
    decreases cs.len(),
{
    let s = esc_str(cs) + seq!['"'] + rest;
    if cs.len() == 0 {
        assert(esc_str(cs) =~= Seq::<char>::empty());
        assert(s =~= seq!['"'] + rest);
        assert(s[0] == '"');
        assert(s.drop_first() =~= rest);
        assert(Seq::<char>::empty() =~= cs);
    } else {
        let c = cs[0];
        let e = esc_char(c);
        lemma_string_round(cs.drop_first(), rest);
        let s2 = esc_str(cs.drop_first()) + seq!['"'] + rest;
        assert(s =~= e + s2);
        assert(forall|i: int| 0 <= i < e.len() ==> s[i] == e[i]);
        if c == '"' || c == '\\' {
            assert(e =~= seq!['\\', if c == '"' { '"' } else { '\\' }]);
            assert(s[0] == '\\');
            assert(s[1] != 'u');
            assert(unescape(s[1]) == Some(c));
            assert(s.skip(2) =~= s2);
            assert(seq![c] + cs.drop_first() =~= cs);
        } else if c == '\n' || c == '\r' || c == '\t' || c == '\u{8}' || c == '\u{c}' {
            assert(s[0] == '\\');
            assert(s[1] != 'u');
            assert(unescape(s[1]) == Some(c));
            assert(s.skip(2) =~= s2);
            assert(seq![c] + cs.drop_first() =~= cs);
        } else if (c as int) < 0x20 {
            crate::decode::lemma_char_cast(c);
            let code = c as int;
            vstd::arithmetic::div_mod::lemma_fundamental_div_mod(code, 16);
            assert(e =~= seq!['\\', 'u', '0', '0', hex_char(code / 16), hex_char(code % 16)]);
            assert(s[0] == '\\');
            assert(s[1] == 'u');
            assert(s.len() >= 6);
            lemma_hex_char_val(code / 16);
            lemma_hex_char_val(code % 16);
            assert(is_hex(s[2]) && is_hex(s[3]) && is_hex(s[4]) && is_hex(s[5]));
            assert(hex_val(s[2]) == 0 && hex_val(s[3]) == 0);
            assert(hex_val(s[4]) == code / 16 && hex_val(s[5]) == code % 16);
            assert((code / 16) * 0x10 + code % 16 == code);
            assert(is_scalar(code));
            assert(((code as u32) as char) == c);
            assert(s.skip(6) =~= s2);
            assert(seq![c] + cs.drop_first() =~= cs);
        } else {
            assert(e =~= seq![c]);
            assert(s[0] == c);
            assert(s[0] != '"' && s[0] != '\\');
            assert(!((s[0] as int) < 0x20));
            assert(s.drop_first() =~= s2);
            assert(seq![c] + cs.drop_first() =~= cs);
        }
    }
}


/// The canonical text of a value is non-empty and starts with a character
/// that is neither whitespace nor a list delimiter.
proof fn lemma_print_head(v: Jv)
    ensures
        print_jv(v).len() > 0,
        !is_ws(print_jv(v)[0]),
        print_jv(v)[0] != ']',
        print_jv(v)[0] != '}',
        print_jv(v)[0] != ',',
{
    match v {
        Jv::Number(n) => {
            if n >= 0 {
                lemma_dec_digits_digits(n as nat);
            } else {
                lemma_dec_digits_digits((-(n as int)) as nat);
            }
        },
        _ => {},
    }
}

/// The canonical text of a value, followed by anything that does not start
/// with a digit, parses back to the value with exactly that remainder.
#[verifier::rlimit(100)]
proof fn lemma_value_round(v: Jv, rest: Seq<char>)
    requires
        rest.len() == 0 || !is_digit(rest[0]),
    ensures
        sp_value(print_jv(v) + rest) == Some((v, rest)),
    decreases v, 0nat,
{
    let s = print_jv(v) + rest;
    lemma_print_head(v);
    match v {
        Jv::Null => {
            assert(s[0] == 'n' && s[1] == 'u' && s[2] == 'l' && s[3] == 'l');
            assert(s.skip(4) =~= rest);
        },
        Jv::Bool(b) => {
            if b {
                assert(s[0] == 't' && s[1] == 'r' && s[2] == 'u' && s[3] == 'e');
                assert(s.skip(4) =~= rest);
            } else {
                assert(s[0] == 'f' && s[1] == 'a' && s[2] == 'l' && s[3] == 's' && s[4] == 'e');
                assert(s.skip(5) =~= rest);
            }
        },
        Jv::Number(n) => {
            lemma_number_round(n, rest);
            if n >= 0 {
                lemma_dec_digits_digits(n as nat);
                assert(s[0] == dec_digits(n as nat)[0]);
                assert(is_digit(s[0]));
            } else {
                assert(s[0] == '-');
            }
            assert(s[0] != 'n' && s[0] != 't' && s[0] != 'f' && s[0] != '"');
            assert(s[0] == '-' || is_digit(s[0]));
        },
        Jv::String(cs) => {
            assert(s[0] == '"');
            assert(s.drop_first() =~= esc_str(cs) + seq!['"'] + rest);
            lemma_string_round(cs, rest);
        },
        Jv::Array(es) => {
            assert(s[0] == '[');
            let inner = print_elems(es) + seq![']'] + rest;
            assert(s.drop_first() =~= inner);
            if es.len() == 0 {
                assert(print_elems(es) =~= Seq::<char>::empty());
                assert(inner =~= seq![']'] + rest);
                assert(inner[0] == ']');
            } else {
                lemma_print_head(es[0]);
                assert(inner[0] == print_jv(es[0])[0]);
            }
            assert(!is_ws(inner[0]));
            assert(skip_ws(inner) == inner);
            assert(inner.len() < s.len());
            lemma_elems_round(es, rest);
        },
        Jv::Object(ms) => {
            assert(s[0] == '{');
            let inner = print_members(ms) + seq!['}'] + rest;
            assert(s.drop_first() =~= inner);
            if ms.len() == 0 {
                assert(print_members(ms) =~= Seq::<char>::empty());
                assert(inner =~= seq!['}'] + rest);
                assert(inner[0] == '}');
            } else {
                assert(inner[0] == print_member(ms[0])[0]);
                assert(inner[0] == '"');
            }
            assert(!is_ws(inner[0]));
            assert(skip_ws(inner) == inner);
            assert(inner.len() < s.len());
            lemma_members_round(ms, rest);
        },
    }
}

/// The printed element list, closed by `]`, parses back to the elements.
#[verifier::rlimit(100)]
proof fn lemma_elems_round(es: Seq<Jv>, rest: Seq<char>)
    ensures
        sp_elems(print_elems(es) + seq![']'] + rest) == Some((es, rest)),
    decreases es, 1nat,
{
    let s = print_elems(es) + seq![']'] + rest;
    if es.len() == 0 {
        assert(print_elems(es) =~= Seq::<char>::empty());
        assert(s =~= seq![']'] + rest);
        assert(s[0] == ']');
        assert(s.drop_first() =~= rest);
        assert(Seq::<Jv>::empty() =~= es);
    } else if es.len() == 1 {
        let e0 = es[0];
        lemma_print_head(e0);
        let rest2 = seq![']'] + rest;
        assert(s =~= print_jv(e0) + rest2);
        assert(s[0] == print_jv(e0)[0]);
        assert(decreases_to!(es => e0));
        lemma_value_round(e0, rest2);
        assert(skip_ws(rest2) == rest2);
        assert(rest2[0] == ']');
        assert(rest2.drop_first() =~= rest);
        assert(seq![e0] =~= es);
    } else {
        let e0 = es[0];
        let tl = es.drop_first();
        lemma_print_head(e0);
        lemma_print_head(tl[0]);
        let rest2 = seq![','] + print_elems(tl) + seq![']'] + rest;
        assert(s =~= print_jv(e0) + rest2);
        assert(s[0] == print_jv(e0)[0]);
        assert(decreases_to!(es => e0));
        lemma_value_round(e0, rest2);
        assert(skip_ws(rest2) == rest2);
        assert(rest2[0] == ',');
        let u = print_elems(tl) + seq![']'] + rest;
        assert(rest2.drop_first() =~= u);
        assert(u[0] == print_jv(tl[0])[0]);
        assert(!is_ws(u[0]));
        assert(skip_ws(u) == u);
        assert(u.len() < s.len());
        lemma_elems_round(tl, rest);
        assert(seq![e0] + tl =~= es);
    }
}

/// The printed member list, closed by `}`, parses back to the members.
#[verifier::rlimit(100)]
proof fn lemma_members_round(ms: Seq<(Seq<char>, Jv)>, rest: Seq<char>)
    ensures
        sp_members(print_members(ms) + seq!['}'] + rest) == Some((ms, rest)),
    decreases ms, 1nat,
{
    let s = print_members(ms) + seq!['}'] + rest;
    if ms.len() == 0 {
        assert(print_members(ms) =~= Seq::<char>::empty());
        assert(s =~= seq!['}'] + rest);
        assert(s[0] == '}');
        assert(s.drop_first() =~= rest);
        assert(Seq::<(Seq<char>, Jv)>::empty() =~= ms);
    } else {
        let m0 = ms[0];
        let k = m0.0;
        let val = m0.1;
        let after = if ms.len() == 1 {
            seq!['}'] + rest
        } else {
            seq![','] + print_members(ms.drop_first()) + seq!['}'] + rest
        };
        assert(s =~= print_member(m0) + after);
        let body = seq![':'] + print_jv(val) + after;
        assert(s.drop_first() =~= esc_str(k) + seq!['"'] + body);
        assert(s[0] == '"');
        lemma_string_round(k, body);
        assert(skip_ws(body) == body);
        assert(body[0] == ':');
        let r3 = print_jv(val) + after;
        assert(body.drop_first() =~= r3);
        lemma_print_head(val);
        assert(r3[0] == print_jv(val)[0]);
        assert(skip_ws(r3) == r3);
        assert(r3.len() < s.len());
        assert(decreases_to!(ms => m0));
        assert(decreases_to!(m0 => val));
        if ms.len() == 1 {
            lemma_value_round(val, after);
            assert(skip_ws(after) == after);
            assert(after[0] == '}');
            assert(after.drop_first() =~= rest);
            assert(seq![(k, val)] =~= ms);
        } else {
            let tl = ms.drop_first();
            lemma_value_round(val, after);
            assert(skip_ws(after) == after);
            assert(after[0] == ',');
            let u = print_members(tl) + seq!['}'] + rest;
            assert(after.drop_first() =~= u);
            assert(u[0] == print_member(tl[0])[0]);
            assert(u[0] == '"');
            assert(skip_ws(u) == u);
            assert(u.len() < s.len());
            lemma_members_round(tl, rest);
            assert(seq![(k, val)] + tl =~= ms);
        }
    }
}

/// Round trip: the canonical JSON text of any value parses back to exactly
/// that value.  With the contracts of [`crate::to_json`] and
/// [`crate::from_json`], parsing the printed text of a value yields the
/// value again.
pub proof fn lemma_json_round_trip(v: Jv)
    ensures
        sp_json(print_jv(v)) == Some(v),
{
    lemma_print_head(v);
    lemma_value_round(v, Seq::empty());
    assert(print_jv(v) + Seq::<char>::empty() =~= print_jv(v));
    assert(skip_ws(print_jv(v)) == print_jv(v));
    assert(skip_ws(Seq::<char>::empty()).len() == 0);
}

} // verus!
