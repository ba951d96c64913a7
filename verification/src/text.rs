//! Character-level text utilities.
//!
//! The codec and the placeholder substitution work on `Vec<char>`, whose
//! contents Verus can reason about directly.  The bridges between `str` /
//! `String` and `Vec<char>` are thin trusted wrappers over std.

use vstd::prelude::*;

verus! {

/// Relies on `str::chars`: iterating a string slice yields exactly the
/// characters of its view, in order.
#[verifier::external_body]
pub(crate) fn str_chars(s: &str) -> (r: Vec<char>)
    ensures
        r@ == s@,
{
    s.chars().collect()
}

/// Relies on `FromIterator<char> for String`: collecting characters builds
/// the string of exactly those characters, in order.
#[verifier::external_body]
pub(crate) fn chars_string(v: &Vec<char>) -> (r: String)
    ensures
        r@ == v@,
{
    v.iter().collect()
}

/// Relies on `char::from_u32`: it returns `Some` exactly for Unicode scalar
/// values (below the surrogate range, or between it and the maximum code
/// point), and the returned character has the given code.
#[verifier::external_body]
pub(crate) fn char_from_u32(x: u32) -> (r: Option<char>)
    ensures
        r is Some <==> (x < 0xD800 || (0xE000 <= x && x <= 0x10FFFF)),
        r is Some ==> r->0 as u32 == x,
        r is Some ==> r->0 == x as char,
{
    char::from_u32(x)
}

/// Relies on `String::from_utf8`: it succeeds exactly on valid UTF-8 and
/// then returns the decoded character sequence.
#[verifier::external_body]
pub(crate) fn string_from_utf8(v: Vec<u8>) -> (r: Option<String>)
    ensures
        r is Some <==> vstd::utf8::valid_utf8(v@),
        r is Some ==> r->0@ == vstd::utf8::decode_utf8(v@),
{
    String::from_utf8(v).ok()
}

/// `text` with every occurrence of `pat` replaced by `sub`, scanning left to
/// right and never rescanning replaced text.
pub open spec fn spec_replace(text: Seq<char>, pat: Seq<char>, sub: Seq<char>) -> Seq<char>
    decreases text.len(),
{
    if pat.len() == 0 || text.len() < pat.len() {
        text
    } else if text.take(pat.len() as int) == pat {
        sub + spec_replace(text.skip(pat.len() as int), pat, sub)
    } else {
        seq![text[0]] + spec_replace(text.drop_first(), pat, sub)
    }
}

/// Whether `pat` occurs in `text` starting at position `at`.
pub open spec fn matches_at(text: Seq<char>, pat: Seq<char>, at: int) -> bool {
    0 <= at && at + pat.len() <= text.len() && text.subrange(at, at + pat.len()) == pat
}

/// Whether `pat` occurs anywhere in `text`.
pub open spec fn contains_seq(text: Seq<char>, pat: Seq<char>) -> bool {
    exists|at: int| matches_at(text, pat, at)
}

/// Whether `pat` occurs at position `at` of `text`, decided executably.
pub fn check_match(text: &Vec<char>, pat: &Vec<char>, at: usize) -> (r: bool)
    requires
        at <= text@.len(),
    ensures
        r == matches_at(text@, pat@, at as int),
{
    if pat.len() > text.len() - at {
        proof {
            assert(!matches_at(text@, pat@, at as int));
        }
        return false;
    }
    let n = pat.len();
    let tl = text.len();
    let mut i: usize = 0;
    while i < n
        invariant
            n == pat@.len(),
            i <= n,
            tl == text@.len(),
            at + n <= tl,
            forall|j: int| 0 <= j < i ==> text@[at + j] == pat@[j],
        decreases n - i,
    {
        if text[at + i] != pat[i] {
            proof {
                assert(text@.subrange(at as int, at + pat@.len())[i as int] == text@[at + i]);
            }
            return false;
        }
        i = i + 1;
    }
    proof {
        assert(text@.subrange(at as int, at + pat@.len()) =~= pat@);
    }
    true
}

/// Replace every occurrence of `pat` in `text` by `sub`, left to right,
/// without rescanning the substituted text.
pub fn replace_chars(text: &Vec<char>, pat: &Vec<char>, sub: &Vec<char>) -> (r: Vec<char>)
    ensures
        r@ == spec_replace(text@, pat@, sub@),
{
    let mut out: Vec<char> = Vec::new();
    let mut i: usize = 0;
    if pat.len() == 0 {
        let mut copy: Vec<char> = Vec::new();
        let n = text.len();
        proof {
            assert(text@.take(0) =~= copy@);
        }
        for k in 0..n
            invariant
                n == text@.len(),
                copy@ == text@.take(k as int),
        {
            copy.push(text[k]);
            proof {
                assert(text@.take(k + 1) =~= text@.take(k as int).push(text@[k as int]));
            }
        }
        proof {
            assert(text@.take(n as int) =~= text@);
        }
        return copy;
    }
    proof {
        assert(text@.skip(0) =~= text@);
    }
    while i < text.len()
        invariant
            pat@.len() > 0,
            i <= text@.len(),
            spec_replace(text@, pat@, sub@) == out@ + spec_replace(
                text@.skip(i as int),
                pat@,
                sub@,
            ),
        decreases text@.len() - i,
    {
        let ghost rest = text@.skip(i as int);
        let ghost out0 = out@;
        if check_match(text, pat, i) {
            let ghost tail = rest.skip(pat@.len() as int);
            proof {
                assert(rest.take(pat@.len() as int) =~= text@.subrange(i as int, i + pat@.len()));
                assert(tail =~= text@.skip(i + pat@.len()));
                assert(spec_replace(rest, pat@, sub@) == sub@ + spec_replace(tail, pat@, sub@));
            }
            let m = sub.len();
            for k in 0..m
                invariant
                    m == sub@.len(),
                    out@ == out0 + sub@.take(k as int),
            {
                proof {
                    assert(out0 + sub@.take(k + 1) =~= (out0 + sub@.take(k as int)).push(
                        sub@[k as int],
                    ));
                }
                out.push(sub[k]);
            }
            i = i + pat.len();
            proof {
                assert(sub@.take(sub@.len() as int) =~= sub@);
                assert((out0 + sub@) + spec_replace(tail, pat@, sub@) =~= out0 + (sub@
                    + spec_replace(tail, pat@, sub@)));
            }
        } else {
            proof {
                if rest.len() >= pat@.len() {
                    assert(rest.take(pat@.len() as int) =~= text@.subrange(
                        i as int,
                        i + pat@.len(),
                    ));
                    assert(spec_replace(rest, pat@, sub@) == seq![rest[0]] + spec_replace(
                        rest.drop_first(),
                        pat@,
                        sub@,
                    ));
                } else {
                    assert(spec_replace(rest, pat@, sub@) == rest);
                    assert(rest.drop_first().len() < pat@.len());
                    assert(spec_replace(rest.drop_first(), pat@, sub@) == rest.drop_first());
                    assert(rest =~= seq![rest[0]] + rest.drop_first());
                }
                assert(rest.drop_first() =~= text@.skip(i + 1));
                assert(out0.push(text@[i as int]) =~= out0 + seq![rest[0]]);
                assert((out0 + seq![rest[0]]) + spec_replace(rest.drop_first(), pat@, sub@)
                    =~= out0 + (seq![rest[0]] + spec_replace(rest.drop_first(), pat@, sub@)));
            }
            out.push(text[i]);
            i = i + 1;
        }
    }
    proof {
        assert(text@.skip(text@.len() as int) =~= Seq::<char>::empty());
        assert(out@ + Seq::<char>::empty() =~= out@);
    }
    out
}

} // verus!
