//! JSON text to values.
//!
//! [`sp_json`] is the specification of parsing: a recursive descent over
//! the character sequence that returns the parsed value model and, for the
//! inner functions, the remaining input.  [`parse_json_chars`] and its helpers
//! compute exactly that specification.  Numbers must be integers that fit
//! in a signed 64-bit word; anything else — floats among them — is rejected.

use vstd::prelude::*;
use crate::value::{Jv, Value};
use crate::encode::{is_digit, digit_val};
use crate::text::{chars_string, char_from_u32};

verus! {

/// A character's code is the same whether read as `int` or through `u32`.
pub proof fn lemma_char_cast(c: char)
    ensures
        c as int == (c as u32) as int,
        0 <= c as int <= 0x10FFFF,
{
}

/// JSON whitespace.
pub open spec fn is_ws(c: char) -> bool {
    c == ' ' || c == '\t' || c == '\n' || c == '\r'
}

/// `s` without its leading whitespace.
pub open spec fn skip_ws(s: Seq<char>) -> Seq<char>
    decreases s.len(),
{
    if s.len() > 0 && is_ws(s[0]) {
        skip_ws(s.drop_first())
    } else {
        s
    }
}

/// Whether `c` is a hexadecimal digit (either case).
pub open spec fn is_hex(c: char) -> bool {
    is_digit(c) || ('a' as int <= c as int && c as int <= 'f' as int) || ('A' as int <= c as int
        && c as int <= 'F' as int)
}

/// The numeric value of a hexadecimal digit character.
pub open spec fn hex_val(c: char) -> int {
    if is_digit(c) {
        digit_val(c)
    } else if 'a' as int <= c as int && c as int <= 'f' as int {
        c as int - 'a' as int + 10
    } else {
        c as int - 'A' as int + 10
    }
}

/// The character for a two-character escape, if the escape is legal.
pub open spec fn unescape(e: char) -> Option<char> {
    if e == '"' {
        Some('"')
    } else if e == '\\' {
        Some('\\')
    } else if e == '/' {
        Some('/')
    } else if e == 'n' {
        Some('\n')
    } else if e == 't' {
        Some('\t')
    } else if e == 'r' {
        Some('\r')
    } else if e == 'b' {
        Some('\u{8}')
    } else if e == 'f' {
        Some('\u{c}')
    } else {
        None
    }
}

/// Whether `code` is a Unicode scalar value.
pub open spec fn is_scalar(code: int) -> bool {
    (0 <= code && code < 0xD800) || (0xE000 <= code && code <= 0x10FFFF)
}

/// The rest of a JSON string after its opening quote: the decoded content
/// and the input remaining after the closing quote.
pub open spec fn sp_string_rest(s: Seq<char>) -> Option<(Seq<char>, Seq<char>)>
    decreases s.len(),
{
    if s.len() == 0 {
        None
    } else if s[0] == '"' {
        Some((Seq::empty(), s.drop_first()))
    } else if s[0] == '\\' {
        if s.len() < 2 {
            None
        } else if s[1] == 'u' {
            if s.len() < 6 {
                None
            } else if is_hex(s[2]) && is_hex(s[3]) && is_hex(s[4]) && is_hex(s[5]) {
                let code = hex_val(s[2]) * 0x1000 + hex_val(s[3]) * 0x100 + hex_val(s[4]) * 0x10
                    + hex_val(s[5]);
                if is_scalar(code) {
                    match sp_string_rest(s.skip(6)) {
                        Some((t, r)) => Some((seq![((code as u32) as char)] + t, r)),
                        None => None,
                    }
                } else if 0xD800 <= code < 0xDC00 {
                    if s.len() < 12 {
                        None
                    } else if s[6] == '\\' && s[7] == 'u' && is_hex(s[8]) && is_hex(s[9])
                        && is_hex(s[10]) && is_hex(s[11]) {
                        let code2 = hex_val(s[8]) * 0x1000 + hex_val(s[9]) * 0x100 + hex_val(
                            s[10],
                        ) * 0x10 + hex_val(s[11]);
                        if 0xDC00 <= code2 < 0xE000 {
                            let combined = 0x10000 + (code - 0xD800) * 0x400 + (code2 - 0xDC00);
                            match sp_string_rest(s.skip(12)) {
                                Some((t, r)) => Some((seq![((combined as u32) as char)] + t, r)),
                                None => None,
                            }
                        } else {
                            None
                        }
                    } else {
                        None
                    }
                } else {
                    None
                }
            } else {
                None
            }
        } else {
            match unescape(s[1]) {
                Some(c) => match sp_string_rest(s.skip(2)) {
                    Some((t, r)) => Some((seq![c] + t, r)),
                    None => None,
                },
                None => None,
            }
        }
    } else if (s[0] as int) < 0x20 {
        None
    } else {
        match sp_string_rest(s.drop_first()) {
            Some((t, r)) => Some((seq![s[0]] + t, r)),
            None => None,
        }
    }
}

/// How many decimal digits `s` starts with.
pub open spec fn count_digits(s: Seq<char>) -> nat
    decreases s.len(),
{
    if s.len() > 0 && is_digit(s[0]) {
        1 + count_digits(s.drop_first())
    } else {
        0
    }
}

/// The number denoted by a sequence of decimal digits.
pub open spec fn digits_val(ds: Seq<char>) -> int
    decreases ds.len(),
{
    if ds.len() == 0 {
        0
    } else {
        digits_val(ds.drop_last()) * 10 + digit_val(ds.last())
    }
}

/// A JSON number at the head of `s`: an optional minus sign and a maximal
/// digit run, rejected unless the value fits in a signed 64-bit word.
pub open spec fn sp_number(s: Seq<char>) -> Option<(Jv, Seq<char>)> {
    let neg = s.len() > 0 && s[0] == '-';
    let t = if neg {
        s.drop_first()
    } else {
        s
    };
    let k = count_digits(t);
    if k == 0 {
        None
    } else if t[0] == '0' && k != 1 {
        None
    } else {
        let v = digits_val(t.take(k as int));
        let rest = t.skip(k as int);
        if neg {
            if v <= 0x8000000000000000 {
                Some((Jv::Number((-v) as i64), rest))
            } else {
                None
            }
        } else {
            if v < 0x8000000000000000 {
                Some((Jv::Number(v as i64), rest))
            } else {
                None
            }
        }
    }
}

/// A JSON value at the head of `s` (no leading whitespace), and the
/// remaining input.
pub open spec fn sp_value(s: Seq<char>) -> Option<(Jv, Seq<char>)>
    decreases s.len(), 0nat,
{
    if s.len() == 0 {
        None
    } else if s[0] == 'n' {
        if s.len() >= 4 && s[1] == 'u' && s[2] == 'l' && s[3] == 'l' {
            Some((Jv::Null, s.skip(4)))
        } else {
            None
        }
    } else if s[0] == 't' {
        if s.len() >= 4 && s[1] == 'r' && s[2] == 'u' && s[3] == 'e' {
            Some((Jv::Bool(true), s.skip(4)))
        } else {
            None
        }
    } else if s[0] == 'f' {
        if s.len() >= 5 && s[1] == 'a' && s[2] == 'l' && s[3] == 's' && s[4] == 'e' {
            Some((Jv::Bool(false), s.skip(5)))
        } else {
            None
        }
    } else if s[0] == '"' {
        match sp_string_rest(s.drop_first()) {
            Some((cs, r)) => Some((Jv::String(cs), r)),
            None => None,
        }
    } else if s[0] == '-' || is_digit(s[0]) {
        sp_number(s)
    } else if s[0] == '[' {
        let t = skip_ws(s.drop_first());
        if t.len() < s.len() {
            match sp_elems(t) {
                Some((vs, r)) => Some((Jv::Array(vs), r)),
                None => None,
            }
        } else {
            None
        }
    } else if s[0] == '{' {
        let t = skip_ws(s.drop_first());
        if t.len() < s.len() {
            match sp_members(t) {
                Some((ms, r)) => Some((Jv::Object(ms), r)),
                None => None,
            }
        } else {
            None
        }
    } else {
        None
    }
}

/// Array elements from the position right after `[` (whitespace already
/// skipped): the element models and the input remaining after `]`.
pub open spec fn sp_elems(s: Seq<char>) -> Option<(Seq<Jv>, Seq<char>)>
    decreases s.len(), 1nat,
{
    if s.len() == 0 {
        None
    } else if s[0] == ']' {
        Some((Seq::empty(), s.drop_first()))
    } else {
        match sp_value(s) {
            Some((v, r)) => {
                let t = skip_ws(r);
                if t.len() == 0 {
                    None
                } else if t[0] == ']' {
                    Some((seq![v], t.drop_first()))
                } else if t[0] == ',' {
                    let u = skip_ws(t.drop_first());
                    if u.len() > 0 && u[0] == ']' {
                        None
                    } else if u.len() < s.len() {
                        match sp_elems(u) {
                            Some((vs, rr)) => Some((seq![v] + vs, rr)),
                            None => None,
                        }
                    } else {
                        None
                    }
                } else {
                    None
                }
            },
            None => None,
        }
    }
}

/// Object members from the position right after `{` (whitespace already
/// skipped): the member models and the input remaining after `}`.
pub open spec fn sp_members(s: Seq<char>) -> Option<(Seq<(Seq<char>, Jv)>, Seq<char>)>
    decreases s.len(), 1nat,
{
    if s.len() == 0 {
        None
    } else if s[0] == '}' {
        Some((Seq::empty(), s.drop_first()))
    } else if s[0] != '"' {
        None
    } else {
        match sp_string_rest(s.drop_first()) {
            Some((key, r1)) => {
                let r2 = skip_ws(r1);
                if r2.len() == 0 || r2[0] != ':' {
                    None
                } else {
                    let r3 = skip_ws(r2.drop_first());
                    if r3.len() < s.len() {
                        match sp_value(r3) {
                            Some((v, r4)) => {
                                let t = skip_ws(r4);
                                if t.len() == 0 {
                                    None
                                } else if t[0] == '}' {
                                    Some((seq![(key, v)], t.drop_first()))
                                } else if t[0] == ',' {
                                    let u = skip_ws(t.drop_first());
                                    if u.len() > 0 && u[0] == '}' {
                                        None
                                    } else if u.len() < s.len() {
                                        match sp_members(u) {
                                            Some((ms, rr)) => Some((seq![(key, v)] + ms, rr)),
                                            None => None,
                                        }
                                    } else {
                                        None
                                    }
                                } else {
                                    None
                                }
                            },
                            None => None,
                        }
                    } else {
                        None
                    }
                }
            },
            None => None,
        }
    }
}

/// Parsing a whole document: one value, with whitespace allowed around it.
pub open spec fn sp_json(s: Seq<char>) -> Option<Jv> {
    match sp_value(skip_ws(s)) {
        Some((v, r)) => if skip_ws(r).len() == 0 {
            Some(v)
        } else {
            None
        },
        None => None,
    }
}


/// Whether `c` is a decimal digit, executably.
pub fn is_digit_exec(c: char) -> (r: bool)
    ensures
        r == is_digit(c),
{
    let x = c as u32;
    48 <= x && x <= 57
}

/// The value of a decimal digit character, executably.
pub fn digit_val_exec(c: char) -> (r: u8)
    requires
        is_digit(c),
    ensures
        r as int == digit_val(c),
{
    (c as u32 - 48) as u8
}

/// Whether `c` is a hexadecimal digit, executably.
pub fn is_hex_exec(c: char) -> (r: bool)
    ensures
        r == is_hex(c),
{
    let x = c as u32;
    (48 <= x && x <= 57) || (97 <= x && x <= 102) || (65 <= x && x <= 70)
}

/// The value of a hexadecimal digit character, executably.
pub fn hex_val_exec(c: char) -> (r: u8)
    requires
        is_hex(c),
    ensures
        r as int == hex_val(c),
{
    let x = c as u32;
    if 48 <= x && x <= 57 {
        (x - 48) as u8
    } else if 97 <= x && x <= 102 {
        (x - 97 + 10) as u8
    } else {
        (x - 65 + 10) as u8
    }
}

/// The character for a two-character escape, executably.
pub fn unescape_exec(e: char) -> (r: Option<char>)
    ensures
        r == unescape(e),
{
    if e == '"' {
        Some('"')
    } else if e == '\\' {
        Some('\\')
    } else if e == '/' {
        Some('/')
    } else if e == 'n' {
        Some('\n')
    } else if e == 't' {
        Some('\t')
    } else if e == 'r' {
        Some('\r')
    } else if e == 'b' {
        Some('\u{8}')
    } else if e == 'f' {
        Some('\u{c}')
    } else {
        None
    }
}

/// Advance past whitespace, returning the first non-whitespace position.
pub fn p_skip_ws(s: &Vec<char>, i: usize) -> (j: usize)
    requires
        i <= s@.len(),
    ensures
        i <= j <= s@.len(),
        s@.skip(j as int) == skip_ws(s@.skip(i as int)),
{
    let n = s.len();
    let mut j = i;
    while j < n && (s[j] == ' ' || s[j] == '\t' || s[j] == '\n' || s[j] == '\r')
        invariant
            i <= j <= n,
            n == s@.len(),
            skip_ws(s@.skip(i as int)) == skip_ws(s@.skip(j as int)),
        decreases n - j,
    {
        proof {
            assert(s@.skip(j as int)[0] == s@[j as int]);
            assert(s@.skip(j as int).drop_first() =~= s@.skip(j + 1));
        }
        j = j + 1;
    }
    proof {
        if j < n {
            assert(s@.skip(j as int)[0] == s@[j as int]);
            assert(skip_ws(s@.skip(j as int)) == s@.skip(j as int));
        } else {
            assert(s@.skip(j as int).len() == 0);
            assert(skip_ws(s@.skip(j as int)) == s@.skip(j as int));
        }
    }
    j
}

/// Parse the rest of a JSON string after its opening quote.
pub fn p_string_rest(s: &Vec<char>, i: usize) -> (r: Result<(Vec<char>, usize), ()>)
    requires
        i <= s@.len(),
    ensures
        match sp_string_rest(s@.skip(i as int)) {
            Some((cs, rest)) => match r {
                Ok((v, j)) => v@ == cs && i < j <= s@.len() && s@.skip(j as int) == rest,
                Err(_) => false,
            },
            None => r is Err,
        },
{
    let n = s.len();
    let mut acc: Vec<char> = Vec::new();
    let mut j = i;
    proof {
        match sp_string_rest(s@.skip(i as int)) {
            Some((t, rest)) => {
                assert(Seq::<char>::empty() + t =~= t);
            },
            None => {},
        }
    }
    loop
        invariant
            i <= j <= n,
            n == s@.len(),
            match sp_string_rest(s@.skip(j as int)) {
                Some((t, rest)) => sp_string_rest(s@.skip(i as int)) == Some(
                    (acc@ + t, rest),
                ),
                None => sp_string_rest(s@.skip(i as int)) is None,
            },
        decreases n - j,
    {
        let ghost here = s@.skip(j as int);
        if j >= n {
            proof {
                assert(here.len() == 0);
            }
            return Err(());
        }
        proof {
            assert(here[0] == s@[j as int]);
            assert(here.drop_first() =~= s@.skip(j + 1));
        }
        let c = s[j];
        if c == '"' {
            proof {
                assert(sp_string_rest(here) == Some((Seq::<char>::empty(), s@.skip(j + 1))));
                assert(acc@ + Seq::<char>::empty() =~= acc@);
            }
            return Ok((acc, j + 1));
        } else if c == '\\' {
            if j + 1 >= n {
                proof {
                    assert(here.len() < 2);
                }
                return Err(());
            }
            proof {
                assert(here[1] == s@[j + 1]);
            }
            let e = s[j + 1];
            if e == 'u' {
                if n - j < 6 {
                    proof {
                        assert(here.len() < 6);
                    }
                    return Err(());
                }
                proof {
                    assert(here[2] == s@[j + 2]);
                    assert(here[3] == s@[j + 3]);
                    assert(here[4] == s@[j + 4]);
                    assert(here[5] == s@[j + 5]);
                }
                let h2 = s[j + 2];
                let h3 = s[j + 3];
                let h4 = s[j + 4];
                let h5 = s[j + 5];
                if !(is_hex_exec(h2) && is_hex_exec(h3) && is_hex_exec(h4) && is_hex_exec(h5)) {
                    return Err(());
                }
                let code: u32 = hex_val_exec(h2) as u32 * 0x1000 + hex_val_exec(h3) as u32 * 0x100
                    + hex_val_exec(h4) as u32 * 0x10 + hex_val_exec(h5) as u32;
                if code >= 0xD800 && code < 0xDC00 {
                    if n - j < 12 {
                        proof {
                            assert(here.len() < 12);
                        }
                        return Err(());
                    }
                    proof {
                        assert(here[6] == s@[j + 6]);
                        assert(here[7] == s@[j + 7]);
                        assert(here[8] == s@[j + 8]);
                        assert(here[9] == s@[j + 9]);
                        assert(here[10] == s@[j + 10]);
                        assert(here[11] == s@[j + 11]);
                    }
                    if !(s[j + 6] == '\\' && s[j + 7] == 'u') {
                        return Err(());
                    }
                    let h8 = s[j + 8];
                    let h9 = s[j + 9];
                    let h10 = s[j + 10];
                    let h11 = s[j + 11];
                    if !(is_hex_exec(h8) && is_hex_exec(h9) && is_hex_exec(h10) && is_hex_exec(
                        h11,
                    )) {
                        return Err(());
                    }
                    let code2: u32 = hex_val_exec(h8) as u32 * 0x1000 + hex_val_exec(h9) as u32
                        * 0x100 + hex_val_exec(h10) as u32 * 0x10 + hex_val_exec(h11) as u32;
                    if !(code2 >= 0xDC00 && code2 < 0xE000) {
                        return Err(());
                    }
                    let combined: u32 = 0x10000 + (code - 0xD800) * 0x400 + (code2 - 0xDC00);
                    match char_from_u32(combined) {
                        Some(c2) => {
                            let ghost a0 = acc@;
                            acc.push(c2);
                            j = j + 12;
                            proof {
                                assert(here.skip(12) =~= s@.skip(j as int));
                                match sp_string_rest(s@.skip(j as int)) {
                                    Some((t2, rest2)) => {
                                        assert(sp_string_rest(here) == Some(
                                            (seq![c2] + t2, rest2),
                                        ));
                                        assert((a0 + (seq![c2] + t2)) =~= (a0.push(c2) + t2));
                                    },
                                    None => {
                                        assert(sp_string_rest(here) is None);
                                    },
                                }
                            }
                        },
                        None => {
                            proof {
                                assert(false);
                            }
                            return Err(());
                        },
                    }
                } else if code >= 0xDC00 && code < 0xE000 {
                    proof {
                        assert(!is_scalar(code as int));
                    }
                    return Err(());
                } else {
                    match char_from_u32(code) {
                        Some(c2) => {
                            let ghost a0 = acc@;
                            acc.push(c2);
                            j = j + 6;
                            proof {
                                assert(here.skip(6) =~= s@.skip(j as int));
                                assert(is_scalar(code as int));
                                match sp_string_rest(s@.skip(j as int)) {
                                    Some((t2, rest2)) => {
                                        assert(sp_string_rest(here) == Some(
                                            (seq![c2] + t2, rest2),
                                        ));
                                        assert((a0 + (seq![c2] + t2)) =~= (a0.push(c2) + t2));
                                    },
                                    None => {
                                        assert(sp_string_rest(here) is None);
                                    },
                                }
                            }
                        },
                        None => {
                            proof {
                                assert(false);
                            }
                            return Err(());
                        },
                    }
                }
            } else {
                match unescape_exec(e) {
                    Some(c2) => {
                        let ghost a0 = acc@;
                        acc.push(c2);
                        j = j + 2;
                        proof {
                            assert(here.skip(2) =~= s@.skip(j as int));
                            match sp_string_rest(s@.skip(j as int)) {
                                Some((t2, rest2)) => {
                                    assert(sp_string_rest(here) == Some((seq![c2] + t2, rest2)));
                                    assert((a0 + (seq![c2] + t2)) =~= (a0.push(c2) + t2));
                                },
                                None => {
                                    assert(sp_string_rest(here) is None);
                                },
                            }
                        }
                    },
                    None => {
                        return Err(());
                    },
                }
            }
        } else if (c as u32) < 0x20 {
            proof {
                lemma_char_cast(c);
            }
            return Err(());
        } else {
            let ghost a0 = acc@;
            acc.push(c);
            j = j + 1;
            proof {
                lemma_char_cast(c);
                match sp_string_rest(s@.skip(j as int)) {
                    Some((t2, rest2)) => {
                        assert(sp_string_rest(here) == Some((seq![c] + t2, rest2)));
                        assert((a0 + (seq![c] + t2)) =~= (a0.push(c) + t2));
                    },
                    None => {
                        assert(sp_string_rest(here) is None);
                    },
                }
            }
        }
    }
}


/// One digit extends the value of a digit run by a factor of ten.
proof fn lemma_digits_val_snoc(s: Seq<char>, a: int, b: int)
    requires
        0 <= a <= b < s.len(),
    ensures
        digits_val(s.subrange(a, b + 1)) == digits_val(s.subrange(a, b)) * 10 + digit_val(s[b]),
{
    let cur = s.subrange(a, b + 1);
    assert(cur.drop_last() =~= s.subrange(a, b));
    assert(cur.last() == s[b]);
}

/// The value of a run of digits is not negative.
proof fn lemma_digits_val_nonneg(ds: Seq<char>)
    requires
        forall|x: int| 0 <= x < ds.len() ==> is_digit(#[trigger] ds[x]),
    ensures
        digits_val(ds) >= 0,
    decreases ds.len(),
{
    if ds.len() > 0 {
        lemma_digits_val_nonneg(ds.drop_last());
    }
}

/// Ten times a value above the scaled bound exceeds the bound.
proof fn lemma_mul10_over(acc: int, d: int) by (nonlinear_arith)
    requires
        acc > (0x8000000000000000 - d) / 10,
        0 <= d < 10,
    ensures
        acc * 10 + d > 0x8000000000000000,
{
}

/// Ten times a value within the scaled bound stays within the bound.
proof fn lemma_mul10_under(acc: int, d: int) by (nonlinear_arith)
    requires
        0 <= acc,
        acc <= (0x8000000000000000 - d) / 10,
        0 <= d < 10,
    ensures
        acc * 10 + d <= 0x8000000000000000,
{
}

/// Parse a JSON number at position `i`.
pub fn p_number(s: &Vec<char>, i: usize) -> (r: Result<(Value, usize), ()>)
    requires
        i <= s@.len(),
    ensures
        match sp_number(s@.skip(i as int)) {
            Some((jv, rest)) => match r {
                Ok((v, j)) => v.deep_view() == jv && i < j <= s@.len() && s@.skip(j as int)
                    == rest,
                Err(_) => false,
            },
            None => r is Err,
        },
{
    let n = s.len();
    let ghost whole = s@.skip(i as int);
    let mut j = i;
    let mut neg = false;
    if j < n && s[j] == '-' {
        neg = true;
        j = j + 1;
    }
    proof {
        if i < n {
            assert(whole[0] == s@[i as int]);
        }
    }
    let start = j;
    let ghost t = s@.skip(start as int);
    proof {
        if neg {
            assert(whole.drop_first() =~= t);
        }
    }
    let mut acc: u64 = 0;
    let mut big = false;
    while j < n && is_digit_exec(s[j])
        invariant
            i <= start <= j <= n,
            n == s@.len(),
            t == s@.skip(start as int),
            forall|x: int| start <= x < j ==> is_digit(#[trigger] s@[x]),
            count_digits(t) == (j - start) + count_digits(s@.skip(j as int)),
            !big ==> acc as int == digits_val(s@.subrange(start as int, j as int)) && acc
                <= 0x8000000000000000,
            big ==> digits_val(s@.subrange(start as int, j as int)) > 0x8000000000000000,
        decreases n - j,
    {
        let d = digit_val_exec(s[j]);
        let ghost pre = s@.subrange(start as int, j as int);
        proof {
            lemma_digits_val_snoc(s@, start as int, j as int);
        }
        if big {
            proof {
                lemma_digits_val_nonneg(pre);
            }
        } else {
            if acc > (0x8000000000000000u64 - d as u64) / 10 {
                proof {
                    lemma_mul10_over(acc as int, d as int);
                }
                big = true;
            } else {
                proof {
                    lemma_mul10_under(acc as int, d as int);
                }
                acc = acc * 10 + d as u64;
            }
        }
        proof {
            let rest0 = s@.skip(j as int);
            assert(rest0[0] == s@[j as int]);
            assert(rest0.drop_first() =~= s@.skip(j + 1));
        }
        j = j + 1;
    }
    proof {
        let rest0 = s@.skip(j as int);
        if j < n {
            assert(rest0[0] == s@[j as int]);
            assert(count_digits(rest0) == 0);
        } else {
            assert(rest0.len() == 0);
        }
        assert(count_digits(t) == j - start);
    }
    if j == start {
        return Err(());
    }
    proof {
        assert(t[0] == s@[start as int]);
    }
    if s[start] == '0' && j - start != 1 {
        return Err(());
    }
    let ghost k = count_digits(t);
    let ghost ds = t.take(k as int);
    proof {
        assert(ds =~= s@.subrange(start as int, j as int));
        assert(t.skip(k as int) =~= s@.skip(j as int));
    }
    if big {
        return Err(());
    }
    if neg {
        let v: i64 = if acc == 0x8000000000000000u64 {
            i64::MIN
        } else {
            -(acc as i64)
        };
        Ok((Value::Number(v), j))
    } else {
        if acc >= 0x8000000000000000u64 {
            return Err(());
        }
        Ok((Value::Number(acc as i64), j))
    }
}

/// Parse a JSON value at position `i` (no leading whitespace).
pub fn p_value(s: &Vec<char>, i: usize) -> (r: Result<(Value, usize), ()>)
    requires
        i <= s@.len(),
    ensures
        match sp_value(s@.skip(i as int)) {
            Some((jv, rest)) => match r {
                Ok((v, j)) => v.deep_view() == jv && i < j <= s@.len() && s@.skip(j as int)
                    == rest,
                Err(_) => false,
            },
            None => r is Err,
        },
    decreases s@.len() - i, 0int,
{
    let n = s.len();
    let ghost here = s@.skip(i as int);
    if i >= n {
        return Err(());
    }
    proof {
        assert(here[0] == s@[i as int]);
    }
    let c = s[i];
    if c == 'n' {
        if n - i >= 4 {
            proof {
                assert(here[1] == s@[i + 1]);
                assert(here[2] == s@[i + 2]);
                assert(here[3] == s@[i + 3]);
            }
            if s[i + 1] == 'u' && s[i + 2] == 'l' && s[i + 3] == 'l' {
                proof {
                    assert(here.skip(4) =~= s@.skip(i + 4));
                }
                Ok((Value::Null, i + 4))
            } else {
                Err(())
            }
        } else {
            Err(())
        }
    } else if c == 't' {
        if n - i >= 4 {
            proof {
                assert(here[1] == s@[i + 1]);
                assert(here[2] == s@[i + 2]);
                assert(here[3] == s@[i + 3]);
            }
            if s[i + 1] == 'r' && s[i + 2] == 'u' && s[i + 3] == 'e' {
                proof {
                    assert(here.skip(4) =~= s@.skip(i + 4));
                }
                Ok((Value::Bool(true), i + 4))
            } else {
                Err(())
            }
        } else {
            Err(())
        }
    } else if c == 'f' {
        if n - i >= 5 {
            proof {
                assert(here[1] == s@[i + 1]);
                assert(here[2] == s@[i + 2]);
                assert(here[3] == s@[i + 3]);
                assert(here[4] == s@[i + 4]);
            }
            if s[i + 1] == 'a' && s[i + 2] == 'l' && s[i + 3] == 's' && s[i + 4] == 'e' {
                proof {
                    assert(here.skip(5) =~= s@.skip(i + 5));
                }
                Ok((Value::Bool(false), i + 5))
            } else {
                Err(())
            }
        } else {
            Err(())
        }
    } else if c == '"' {
        proof {
            assert(here.drop_first() =~= s@.skip(i + 1));
        }
        match p_string_rest(s, i + 1) {
            Ok((cs, j)) => {
                let st = chars_string(&cs);
                Ok((Value::String(st), j))
            },
            Err(_) => Err(()),
        }
    } else if c == '-' || is_digit_exec(c) {
        p_number(s, i)
    } else if c == '[' {
        proof {
            assert(here.drop_first() =~= s@.skip(i + 1));
        }
        let t0 = p_skip_ws(s, i + 1);
        proof {
            assert(skip_ws(here.drop_first()) == s@.skip(t0 as int));
            assert(s@.skip(t0 as int).len() < here.len());
        }
        match p_elems(s, t0) {
            Ok((ve, j)) => {
                proof {
                    crate::value::lemma_jv_of_array(ve);
                }
                Ok((Value::Array(ve), j))
            },
            Err(_) => Err(()),
        }
    } else if c == '{' {
        proof {
            assert(here.drop_first() =~= s@.skip(i + 1));
        }
        let t0 = p_skip_ws(s, i + 1);
        proof {
            assert(skip_ws(here.drop_first()) == s@.skip(t0 as int));
            assert(s@.skip(t0 as int).len() < here.len());
        }
        match p_members(s, t0) {
            Ok((ve, j)) => {
                proof {
                    crate::value::lemma_jv_of_object(ve);
                }
                Ok((Value::Object(ve), j))
            },
            Err(_) => Err(()),
        }
    } else {
        Err(())
    }
}

/// Parse array elements from position `i` (right after `[`, whitespace
/// skipped).
pub fn p_elems(s: &Vec<char>, i: usize) -> (r: Result<(Vec<Value>, usize), ()>)
    requires
        i <= s@.len(),
    ensures
        match sp_elems(s@.skip(i as int)) {
            Some((vs, rest)) => match r {
                Ok((ve, j)) => ve.deep_view() == vs && i < j <= s@.len() && s@.skip(j as int)
                    == rest,
                Err(_) => false,
            },
            None => r is Err,
        },
    decreases s@.len() - i, 1int,
{
    let n = s.len();
    let mut acc: Vec<Value> = Vec::new();
    let mut cur = i;
    proof {
        assert(acc.deep_view() =~= Seq::<Jv>::empty());
        match sp_elems(s@.skip(i as int)) {
            Some((vs, rest)) => {
                assert(Seq::<Jv>::empty() + vs =~= vs);
            },
            None => {},
        }
    }
    loop
        invariant
            i <= cur <= n,
            n == s@.len(),
            match sp_elems(s@.skip(cur as int)) {
                Some((vs, rest)) => sp_elems(s@.skip(i as int)) == Some(
                    (acc.deep_view() + vs, rest),
                ),
                None => sp_elems(s@.skip(i as int)) is None,
            },
        decreases n - cur,
    {
        let ghost here = s@.skip(cur as int);
        if cur >= n {
            return Err(());
        }
        proof {
            assert(here[0] == s@[cur as int]);
        }
        if s[cur] == ']' {
            proof {
                assert(here.drop_first() =~= s@.skip(cur + 1));
                assert(acc.deep_view() + Seq::<Jv>::empty() =~= acc.deep_view());
            }
            return Ok((acc, cur + 1));
        }
        match p_value(s, cur) {
            Ok((v, j2)) => {
                let k2 = p_skip_ws(s, j2);
                let ghost adv = acc.deep_view();
                if k2 >= n {
                    return Err(());
                }
                proof {
                    assert(s@.skip(k2 as int)[0] == s@[k2 as int]);
                }
                if s[k2] == ']' {
                    acc.push(v);
                    proof {
                        assert(s@.skip(k2 as int).drop_first() =~= s@.skip(k2 + 1));
                        assert(acc.deep_view() =~= adv + seq![v.deep_view()]);
                        assert(adv + (seq![v.deep_view()]) + Seq::<Jv>::empty() =~= adv + seq![
                            v.deep_view(),
                        ]);
                    }
                    return Ok((acc, k2 + 1));
                } else if s[k2] == ',' {
                    let u = p_skip_ws(s, k2 + 1);
                    proof {
                        assert(s@.skip(k2 as int).drop_first() =~= s@.skip(k2 + 1));
                    }
                    if u < n {
                        proof {
                            assert(s@.skip(u as int)[0] == s@[u as int]);
                        }
                        if s[u] == ']' {
                            return Err(());
                        }
                    }
                    acc.push(v);
                    proof {
                        assert(acc.deep_view() =~= adv + seq![v.deep_view()]);
                        match sp_elems(s@.skip(u as int)) {
                            Some((vs2, rest2)) => {
                                assert((adv + (seq![v.deep_view()] + vs2)) =~= ((adv + seq![
                                    v.deep_view(),
                                ]) + vs2));
                            },
                            None => {},
                        }
                    }
                    cur = u;
                } else {
                    return Err(());
                }
            },
            Err(_) => {
                return Err(());
            },
        }
    }
}

/// Parse object members from position `i` (right after `{`, whitespace
/// skipped).
pub fn p_members(s: &Vec<char>, i: usize) -> (r: Result<(Vec<(String, Value)>, usize), ()>)
    requires
        i <= s@.len(),
    ensures
        match sp_members(s@.skip(i as int)) {
            Some((ms, rest)) => match r {
                Ok((me, j)) => me.deep_view() == ms && i < j <= s@.len() && s@.skip(j as int)
                    == rest,
                Err(_) => false,
            },
            None => r is Err,
        },
    decreases s@.len() - i, 1int,
{
    let n = s.len();
    let mut acc: Vec<(String, Value)> = Vec::new();
    let mut cur = i;
    proof {
        assert(acc.deep_view() =~= Seq::<(Seq<char>, Jv)>::empty());
        match sp_members(s@.skip(i as int)) {
            Some((ms, rest)) => {
                assert(Seq::<(Seq<char>, Jv)>::empty() + ms =~= ms);
            },
            None => {},
        }
    }
    loop
        invariant
            i <= cur <= n,
            n == s@.len(),
            match sp_members(s@.skip(cur as int)) {
                Some((ms, rest)) => sp_members(s@.skip(i as int)) == Some(
                    (acc.deep_view() + ms, rest),
                ),
                None => sp_members(s@.skip(i as int)) is None,
            },
        decreases n - cur,
    {
        let ghost here = s@.skip(cur as int);
        if cur >= n {
            return Err(());
        }
        proof {
            assert(here[0] == s@[cur as int]);
        }
        if s[cur] == '}' {
            proof {
                assert(here.drop_first() =~= s@.skip(cur + 1));
                assert(acc.deep_view() + Seq::<(Seq<char>, Jv)>::empty() =~= acc.deep_view());
            }
            return Ok((acc, cur + 1));
        }
        if s[cur] != '"' {
            return Err(());
        }
        proof {
            assert(here.drop_first() =~= s@.skip(cur + 1));
        }
        match p_string_rest(s, cur + 1) {
            Ok((kc, j1)) => {
                let key = chars_string(&kc);
                let k2 = p_skip_ws(s, j1);
                if k2 >= n {
                    return Err(());
                }
                proof {
                    assert(s@.skip(k2 as int)[0] == s@[k2 as int]);
                }
                if s[k2] != ':' {
                    return Err(());
                }
                proof {
                    assert(s@.skip(k2 as int).drop_first() =~= s@.skip(k2 + 1));
                }
                let k3 = p_skip_ws(s, k2 + 1);
                proof {
                    assert(s@.skip(k3 as int).len() < here.len());
                }
                match p_value(s, k3) {
                    Ok((v, j4)) => {
                        let k5 = p_skip_ws(s, j4);
                        let ghost adv = acc.deep_view();
                        if k5 >= n {
                            return Err(());
                        }
                        proof {
                            assert(s@.skip(k5 as int)[0] == s@[k5 as int]);
                        }
                        if s[k5] == '}' {
                            acc.push((key, v));
                            proof {
                                assert(s@.skip(k5 as int).drop_first() =~= s@.skip(k5 + 1));
                                assert(acc.deep_view() =~= adv + seq![(kc@, v.deep_view())]);
                                assert(adv + (seq![(kc@, v.deep_view())]) + Seq::<(
                                    Seq<char>,
                                    Jv,
                                )>::empty() =~= adv + seq![(kc@, v.deep_view())]);
                            }
                            return Ok((acc, k5 + 1));
                        } else if s[k5] == ',' {
                            let u = p_skip_ws(s, k5 + 1);
                            proof {
                                assert(s@.skip(k5 as int).drop_first() =~= s@.skip(k5 + 1));
                            }
                            if u < n {
                                proof {
                                    assert(s@.skip(u as int)[0] == s@[u as int]);
                                }
                                if s[u] == '}' {
                                    return Err(());
                                }
                            }
                            acc.push((key, v));
                            proof {
                                assert(acc.deep_view() =~= adv + seq![(kc@, v.deep_view())]);
                                match sp_members(s@.skip(u as int)) {
                                    Some((ms2, rest2)) => {
                                        assert((adv + (seq![(kc@, v.deep_view())] + ms2)) =~= ((adv
                                            + seq![(kc@, v.deep_view())]) + ms2));
                                    },
                                    None => {},
                                }
                            }
                            cur = u;
                        } else {
                            return Err(());
                        }
                    },
                    Err(_) => {
                        return Err(());
                    },
                }
            },
            Err(_) => {
                return Err(());
            },
        }
    }
}

/// Parse a whole JSON document held in `s`.
pub fn parse_json_chars(s: &Vec<char>) -> (r: Result<Value, ()>)
    ensures
        match sp_json(s@) {
            Some(jv) => match r {
                Ok(v) => v.deep_view() == jv,
                Err(_) => false,
            },
            None => r is Err,
        },
{
    proof {
        assert(s@.skip(0) =~= s@);
    }
    let t0 = p_skip_ws(s, 0);
    match p_value(s, t0) {
        Ok((v, j)) => {
            let e = p_skip_ws(s, j);
            if e == s.len() {
                proof {
                    assert(s@.skip(e as int).len() == 0);
                }
                Ok(v)
            } else {
                proof {
                    assert(s@.skip(e as int).len() > 0);
                }
                Err(())
            }
        },
        Err(_) => Err(()),
    }
}

} // verus!
