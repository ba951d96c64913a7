//! Canonical JSON text for values.
//!
//! [`print_jv`] is the canonical, whitespace-free JSON encoding of a value
//! model; [`write_value`] produces exactly that text.  Arrays and objects
//! keep their element order; object members keep duplicate keys.  Strings
//! are escaped with the two-character escapes `\" \\ \n \r \t \b \f` and
//! `\u00XX` for the remaining control characters.

use vstd::prelude::*;
use crate::value::{Jv, Value};

verus! {

/// The decimal digit character for `d` (0 ≤ d ≤ 9).
pub open spec fn digit_char(d: int) -> char {
    if d == 0 {
        '0'
    } else if d == 1 {
        '1'
    } else if d == 2 {
        '2'
    } else if d == 3 {
        '3'
    } else if d == 4 {
        '4'
    } else if d == 5 {
        '5'
    } else if d == 6 {
        '6'
    } else if d == 7 {
        '7'
    } else if d == 8 {
        '8'
    } else {
        '9'
    }
}

/// The lower-case hexadecimal digit character for `d` (0 ≤ d ≤ 15).
pub open spec fn hex_char(d: int) -> char {
    if d < 10 {
        digit_char(d)
    } else if d == 10 {
        'a'
    } else if d == 11 {
        'b'
    } else if d == 12 {
        'c'
    } else if d == 13 {
        'd'
    } else if d == 14 {
        'e'
    } else {
        'f'
    }
}

/// Whether `c` is a decimal digit.
pub open spec fn is_digit(c: char) -> bool {
    '0' as int <= c as int && c as int <= '9' as int
}

/// The numeric value of a decimal digit character.
pub open spec fn digit_val(c: char) -> int {
    c as int - '0' as int
}

/// The escape sequence for one string character.
pub open spec fn esc_char(c: char) -> Seq<char> {
    if c == '"' {
        seq!['\\', '"']
    } else if c == '\\' {
        seq!['\\', '\\']
    } else if c == '\n' {
        seq!['\\', 'n']
    } else if c == '\r' {
        seq!['\\', 'r']
    } else if c == '\t' {
        seq!['\\', 't']
    } else if c == '\u{8}' {
        seq!['\\', 'b']
    } else if c == '\u{c}' {
        seq!['\\', 'f']
    } else if (c as int) < 0x20 {
        seq!['\\', 'u', '0', '0', hex_char((c as int) / 16), hex_char((c as int) % 16)]
    } else {
        seq![c]
    }
}

/// The escaped body of a JSON string.
pub open spec fn esc_str(s: Seq<char>) -> Seq<char>
    decreases s.len(),
{
    if s.len() == 0 {
        Seq::empty()
    } else {
        esc_char(s[0]) + esc_str(s.drop_first())
    }
}

/// Escaping distributes over concatenation.
pub proof fn lemma_esc_str_concat(a: Seq<char>, b: Seq<char>)
    ensures
        esc_str(a + b) == esc_str(a) + esc_str(b),
    decreases a.len(),
{
    if a.len() == 0 {
        assert(a + b =~= b);
        assert(esc_str(a) + esc_str(b) =~= esc_str(b));
    } else {
        lemma_esc_str_concat(a.drop_first(), b);
        assert((a + b).drop_first() =~= a.drop_first() + b);
        assert(esc_char(a[0]) + (esc_str(a.drop_first()) + esc_str(b)) =~= (esc_char(a[0])
            + esc_str(a.drop_first())) + esc_str(b));
    }
}

/// The decimal digits of `n`, most significant first.
pub open spec fn dec_digits(n: nat) -> Seq<char>
    decreases n,
{
    if n < 10 {
        seq![digit_char(n as int)]
    } else {
        dec_digits(n / 10) + seq![digit_char((n % 10) as int)]
    }
}

/// The decimal text of an integer, with a leading minus sign when negative.
pub open spec fn print_int(n: int) -> Seq<char> {
    if n < 0 {
        seq!['-'] + dec_digits((-n) as nat)
    } else {
        dec_digits(n as nat)
    }
}

/// The canonical JSON text of a value model.
pub open spec fn print_jv(v: Jv) -> Seq<char>
    decreases v, 0nat,
{
    match v {
        Jv::Null => seq!['n', 'u', 'l', 'l'],
        Jv::Bool(b) => if b {
            seq!['t', 'r', 'u', 'e']
        } else {
            seq!['f', 'a', 'l', 's', 'e']
        },
        Jv::Number(n) => print_int(n as int),
        Jv::String(s) => seq!['"'] + esc_str(s) + seq!['"'],
        Jv::Array(es) => seq!['['] + print_elems(es) + seq![']'],
        Jv::Object(ms) => seq!['{'] + print_members(ms) + seq!['}'],
    }
}

/// The comma-separated texts of array elements.
pub open spec fn print_elems(es: Seq<Jv>) -> Seq<char>
    decreases es, 1nat,
{
    if es.len() == 0 {
        Seq::empty()
    } else if es.len() == 1 {
        print_jv(es[0])
    } else {
        print_jv(es[0]) + seq![','] + print_elems(es.drop_first())
    }
}

/// The comma-separated `"key":value` texts of object members.
pub open spec fn print_members(ms: Seq<(Seq<char>, Jv)>) -> Seq<char>
    decreases ms, 1nat,
{
    if ms.len() == 0 {
        Seq::empty()
    } else if ms.len() == 1 {
        print_member(ms[0])
    } else {
        print_member(ms[0]) + seq![','] + print_members(ms.drop_first())
    }
}

/// The `"key":value` text of one object member.
pub open spec fn print_member(m: (Seq<char>, Jv)) -> Seq<char>
    decreases m, 0nat,
{
    seq!['"'] + esc_str(m.0) + seq!['"', ':'] + print_jv(m.1)
}

/// The decimal digit character for `d`, executably.
pub fn digit_char_exec(d: u8) -> (r: char)
    requires
        d < 10,
    ensures
        r == digit_char(d as int),
{
    if d == 0 {
        '0'
    } else if d == 1 {
        '1'
    } else if d == 2 {
        '2'
    } else if d == 3 {
        '3'
    } else if d == 4 {
        '4'
    } else if d == 5 {
        '5'
    } else if d == 6 {
        '6'
    } else if d == 7 {
        '7'
    } else if d == 8 {
        '8'
    } else {
        '9'
    }
}

/// The hexadecimal digit character for `d`, executably.
pub fn hex_char_exec(d: u8) -> (r: char)
    requires
        d < 16,
    ensures
        r == hex_char(d as int),
{
    if d < 10 {
        digit_char_exec(d)
    } else if d == 10 {
        'a'
    } else if d == 11 {
        'b'
    } else if d == 12 {
        'c'
    } else if d == 13 {
        'd'
    } else if d == 14 {
        'e'
    } else {
        'f'
    }
}

/// Append the decimal digits of `n` to `out`.
pub fn write_u64(n: u64, out: &mut Vec<char>)
    ensures
        final(out)@ == old(out)@ + dec_digits(n as nat),
    decreases n,
{
    if n < 10 {
        out.push(digit_char_exec(n as u8));
        proof {
            assert(old(out)@.push(digit_char(n as int)) =~= old(out)@ + dec_digits(n as nat));
        }
    } else {
        write_u64(n / 10, out);
        out.push(digit_char_exec((n % 10) as u8));
        proof {
            assert((old(out)@ + dec_digits((n / 10) as nat)).push(digit_char((n % 10) as int))
                =~= old(out)@ + (dec_digits((n / 10) as nat) + seq![
                    digit_char((n % 10) as int),
                ]));
        }
    }
}

/// Append the decimal text of `n` to `out`.
pub fn write_i64(n: i64, out: &mut Vec<char>)
    ensures
        final(out)@ == old(out)@ + print_int(n as int),
{
    if n >= 0 {
        write_u64(n as u64, out);
    } else {
        out.push('-');
        let m: u64 = if n == i64::MIN {
            9223372036854775808u64
        } else {
            (-n) as u64
        };
        write_u64(m, out);
        proof {
            assert((old(out)@.push('-')) + dec_digits(m as nat) =~= old(out)@ + (seq!['-']
                + dec_digits((-(n as int)) as nat)));
        }
    }
}

/// Append the escaped form of `c` to `out`.
pub fn write_escaped_char(c: char, out: &mut Vec<char>)
    ensures
        final(out)@ == old(out)@ + esc_char(c),
{
    if c == '"' {
        out.push('\\');
        out.push('"');
    } else if c == '\\' {
        out.push('\\');
        out.push('\\');
    } else if c == '\n' {
        out.push('\\');
        out.push('n');
    } else if c == '\r' {
        out.push('\\');
        out.push('r');
    } else if c == '\t' {
        out.push('\\');
        out.push('t');
    } else if c == '\u{8}' {
        out.push('\\');
        out.push('b');
    } else if c == '\u{c}' {
        out.push('\\');
        out.push('f');
    } else if (c as u32) < 0x20 {
        let code = c as u32;
        out.push('\\');
        out.push('u');
        out.push('0');
        out.push('0');
        out.push(hex_char_exec((code / 16) as u8));
        out.push(hex_char_exec((code % 16) as u8));
    } else {
        out.push(c);
    }
    proof {
        assert(final(out)@ =~= old(out)@ + esc_char(c));
    }
}

/// Append the escaped body of `s` to `out`.
pub fn write_escaped(s: &str, out: &mut Vec<char>)
    ensures
        final(out)@ == old(out)@ + esc_str(s@),
{
    let cs = crate::text::str_chars(s);
    let n = cs.len();
    proof {
        assert(s@.take(0) =~= Seq::<char>::empty());
    }
    for i in 0..n
        invariant
            n == cs@.len(),
            cs@ == s@,
            out@ == old(out)@ + esc_str(s@.take(i as int)),
    {
        write_escaped_char(cs[i], out);
        proof {
            assert(s@.take(i + 1) =~= s@.take(i as int) + seq![s@[i as int]]);
            lemma_esc_str_concat(s@.take(i as int), seq![s@[i as int]]);
            assert(esc_str(seq![s@[i as int]]) =~= esc_char(s@[i as int]) + esc_str(
                seq![s@[i as int]].drop_first(),
            ));
            assert(seq![s@[i as int]].drop_first() =~= Seq::<char>::empty());
            assert(esc_char(s@[i as int]) + Seq::<char>::empty() =~= esc_char(s@[i as int]));
            assert((old(out)@ + esc_str(s@.take(i as int))) + esc_char(s@[i as int]) =~= old(
                out,
            )@ + (esc_str(s@.take(i as int)) + esc_char(s@[i as int])));
        }
    }
    proof {
        assert(s@.take(n as int) =~= s@);
    }
}

/// Append the canonical JSON text of `v` to `out`.
pub fn write_value(v: &Value, out: &mut Vec<char>)
    ensures
        final(out)@ == old(out)@ + print_jv(v.deep_view()),
    decreases *v, 0int,
{
    match v {
        Value::Null => {
            out.push('n');
            out.push('u');
            out.push('l');
            out.push('l');
            proof {
                assert(final(out)@ =~= old(out)@ + print_jv(v.deep_view()));
            }
        },
        Value::Bool(b) => {
            if *b {
                out.push('t');
                out.push('r');
                out.push('u');
                out.push('e');
            } else {
                out.push('f');
                out.push('a');
                out.push('l');
                out.push('s');
                out.push('e');
            }
            proof {
                assert(final(out)@ =~= old(out)@ + print_jv(v.deep_view()));
            }
        },
        Value::Number(n) => {
            write_i64(*n, out);
        },
        Value::String(s) => {
            out.push('"');
            write_escaped(s.as_str(), out);
            out.push('"');
            proof {
                assert(final(out)@ =~= old(out)@ + print_jv(v.deep_view()));
            }
        },
        Value::Array(a) => {
            out.push('[');
            write_elems(a, 0, out);
            out.push(']');
            proof {
                assert(v.deep_view()->Array_0 =~= a.deep_view());
                assert(a.deep_view().skip(0) =~= a.deep_view());
                assert(final(out)@ =~= old(out)@ + print_jv(v.deep_view()));
            }
        },
        Value::Object(m) => {
            out.push('{');
            write_members(m, 0, out);
            out.push('}');
            proof {
                assert(v.deep_view()->Object_0 =~= m.deep_view());
                assert(m.deep_view().skip(0) =~= m.deep_view());
                assert(final(out)@ =~= old(out)@ + print_jv(v.deep_view()));
            }
        },
    }
}

/// Append the texts of the elements of `a` from index `i` on, separated by
/// commas.
pub fn write_elems(a: &Vec<Value>, i: usize, out: &mut Vec<char>)
    requires
        i <= a@.len(),
    ensures
        final(out)@ == old(out)@ + print_elems(a.deep_view().skip(i as int)),
    decreases *a, a@.len() - i,
{
    proof {
        assert(a.deep_view().len() == a@.len());
    }
    if i < a.len() {
        proof {
            assert(decreases_to!(a => a[i as int]));
            assert(a.deep_view().skip(i as int)[0] == a@[i as int].deep_view());
        }
        write_value(&a[i], out);
        if i + 1 < a.len() {
            out.push(',');
            write_elems(a, i + 1, out);
            proof {
                assert(a.deep_view().skip(i as int).drop_first() =~= a.deep_view().skip(i + 1));
                assert(((old(out)@ + print_jv(a@[i as int].deep_view())).push(',')) + print_elems(
                    a.deep_view().skip(i + 1),
                ) =~= old(out)@ + (print_jv(a.deep_view().skip(i as int)[0]) + seq![',']
                    + print_elems(a.deep_view().skip(i as int).drop_first())));
            }
        } else {
            proof {
                assert(a.deep_view().skip(i as int).len() == 1);
            }
        }
    } else {
        proof {
            assert(a.deep_view().skip(i as int) =~= Seq::<Jv>::empty());
            assert(old(out)@ + Seq::<char>::empty() =~= old(out)@);
        }
    }
}

/// Append the `"key":value` texts of the members of `m` from index `i` on,
/// separated by commas.
pub fn write_members(m: &Vec<(String, Value)>, i: usize, out: &mut Vec<char>)
    requires
        i <= m@.len(),
    ensures
        final(out)@ == old(out)@ + print_members(m.deep_view().skip(i as int)),
    decreases *m, m@.len() - i,
{
    proof {
        assert(m.deep_view().len() == m@.len());
    }
    if i < m.len() {
        proof {
            assert(decreases_to!(m => m[i as int]));
            assert(decreases_to!(m[i as int] => m[i as int].1));
            assert(m.deep_view().skip(i as int)[0] == m@[i as int].deep_view());
        }
        out.push('"');
        write_escaped(m[i].0.as_str(), out);
        out.push('"');
        out.push(':');
        write_value(&m[i].1, out);
        proof {
            assert(out@ =~= old(out)@ + print_member(m.deep_view().skip(i as int)[0]));
        }
        if i + 1 < m.len() {
            out.push(',');
            write_members(m, i + 1, out);
            proof {
                assert(m.deep_view().skip(i as int).drop_first() =~= m.deep_view().skip(i + 1));
                assert(final(out)@ =~= old(out)@ + print_members(m.deep_view().skip(i as int)));
            }
        } else {
            proof {
                assert(m.deep_view().skip(i as int).len() == 1);
            }
        }
    } else {
        proof {
            assert(m.deep_view().skip(i as int) =~= Seq::<(Seq<char>, Jv)>::empty());
            assert(old(out)@ + Seq::<char>::empty() =~= old(out)@);
        }
    }
}

} // verus!
