//! Shell command preparation: placeholder substitution and interpreter
//! selection.
//!
//! A script references declared parameters as `$(name)`.  For each declared
//! parameter, in declaration order, the caller's argument (or the declared
//! default) is stringified and substituted for every occurrence of its
//! placeholder; a parameter with neither fails with `MissingParam`.  The
//! subprocess itself is run by the surrounding application.

use vstd::prelude::*;
use crate::ast::Param;
use crate::codec::{spec_stringify, value_to_str};
use crate::error::Error;
use crate::text::{chars_string, spec_replace, str_chars, replace_chars};
use crate::value::{Jv, Value};

verus! {

/// The first argument bound to `name`, if any.
pub open spec fn args_lookup(args: Seq<(String, Value)>, name: Seq<char>) -> Option<Value>
    decreases args.len(),
{
    if args.len() == 0 {
        None
    } else if args[0].0@ == name {
        Some(args[0].1)
    } else {
        args_lookup(args.drop_first(), name)
    }
}

/// The placeholder text `$(name)`.
pub open spec fn placeholder(name: Seq<char>) -> Seq<char> {
    seq!['$', '('] + name + seq![')']
}

/// The text substituted for a parameter: the stringified argument, else the
/// declared default, else nothing.
pub open spec fn subst_text(p: Param, args: Seq<(String, Value)>) -> Option<Seq<char>> {
    match args_lookup(args, p.name@) {
        Some(v) => Some(spec_stringify(v.deep_view())),
        None => match p.default {
            Some(d) => Some(d@),
            None => None,
        },
    }
}

/// Substitute the parameters in declaration order; the error carries the
/// name of the first parameter with neither argument nor default.
pub open spec fn spec_substitute(
    cmd: Seq<char>,
    params: Seq<Param>,
    args: Seq<(String, Value)>,
) -> Result<Seq<char>, Seq<char>>
    decreases params.len(),
{
    if params.len() == 0 {
        Ok(cmd)
    } else {
        match subst_text(params[0], args) {
            None => Err(params[0].name@),
            Some(t) => spec_substitute(
                spec_replace(cmd, placeholder(params[0].name@), t),
                params.drop_first(),
                args,
            ),
        }
    }
}

/// Find the first argument bound to `name`.
pub fn args_get<'a>(args: &'a Vec<(String, Value)>, name: &String) -> (r: Option<&'a Value>)
    ensures
        match args_lookup(args@, name@) {
            Some(v) => r is Some && *r->0 == v,
            None => r is None,
        },
{
    let n = args.len();
    proof {
        assert(args@.skip(0) =~= args@);
    }
    for i in 0..n
        invariant
            n == args@.len(),
            args_lookup(args@, name@) == args_lookup(args@.skip(i as int), name@),
        {
        proof {
            assert(args@.skip(i as int)[0] == args@[i as int]);
        }
        if args[i].0 == *name {
            return Some(&args[i].1);
        }
        proof {
            assert(args@.skip(i as int).drop_first() =~= args@.skip(i + 1));
        }
    }
    proof {
        assert(args@.skip(n as int) =~= Seq::<(String, Value)>::empty());
    }
    None
}

/// Substitute one parameter's placeholder throughout `cmd`.
///
/// Fails with `MissingParam` exactly when the parameter has neither an
/// argument nor a default.
pub fn replace_placeholder(cmd: &String, param: &Param, args: &Vec<(String, Value)>) -> (r:
    Result<String, Error>)
    ensures
        match subst_text(*param, args@) {
            Some(t) => match r {
                Ok(out) => out@ == spec_replace(cmd@, placeholder(param.name@), t),
                Err(_) => false,
            },
            None => r matches Err(Error::MissingParam(n)) && n@ == param.name@,
        },
{
    let value_text: String = match args_get(args, &param.name) {
        Some(v) => value_to_str(v),
        None => match &param.default {
            Some(d) => d.clone(),
            None => {
                return Err(Error::MissingParam(param.name.clone()));
            },
        },
    };
    let mut pat: Vec<char> = Vec::new();
    pat.push('$');
    pat.push('(');
    let name_chars = str_chars(param.name.as_str());
    let nn = name_chars.len();
    for i in 0..nn
        invariant
            nn == name_chars@.len(),
            name_chars@ == param.name@,
            pat@ == seq!['$', '('] + param.name@.take(i as int),
        {
        pat.push(name_chars[i]);
        proof {
            assert(seq!['$', '('] + param.name@.take(i + 1) =~= (seq!['$', '(']
                + param.name@.take(i as int)).push(param.name@[i as int]));
        }
    }
    pat.push(')');
    proof {
        assert(param.name@.take(nn as int) =~= param.name@);
        assert(pat@ =~= placeholder(param.name@));
    }
    let cmd_chars = str_chars(cmd.as_str());
    let sub_chars = str_chars(value_text.as_str());
    let out = replace_chars(&cmd_chars, &pat, &sub_chars);
    Ok(chars_string(&out))
}

/// Substitute every declared parameter of a function extension into its
/// script, in declaration order.
pub fn prepare_command(script: &String, params: &Option<Vec<Param>>, args: &Vec<(String, Value)>)
    -> (r: Result<String, Error>)
    ensures
        match spec_substitute(script@, crate::ast::params_seq(*params), args@) {
            Ok(cmd) => match r {
                Ok(out) => out@ == cmd,
                Err(_) => false,
            },
            Err(name) => r matches Err(Error::MissingParam(n)) && n@ == name,
        },
{
    let mut cur: String = script.clone();
    if params.is_none() {
        return Ok(cur);
    }
    let ps = params.as_ref().unwrap();
    proof {
        assert(crate::ast::params_seq(*params) == ps@);
        assert(ps@.skip(0) =~= ps@);
    }
    let n = ps.len();
    for i in 0..n
        invariant
            n == ps@.len(),
            crate::ast::params_seq(*params) == ps@,
            spec_substitute(script@, ps@, args@) == spec_substitute(
                cur@,
                ps@.skip(i as int),
                args@,
            ),
        {
        proof {
            assert(ps@.skip(i as int)[0] == ps@[i as int]);
            assert(ps@.skip(i as int).drop_first() =~= ps@.skip(i + 1));
        }
        match replace_placeholder(&cur, &ps[i], args) {
            Ok(next) => {
                cur = next;
            },
            Err(e) => {
                return Err(e);
            },
        }
    }
    proof {
        assert(ps@.skip(n as int) =~= Seq::<Param>::empty());
    }
    Ok(cur)
}

/// The index of the first newline in `s`, if any.
pub open spec fn first_newline(s: Seq<char>) -> Option<int>
    decreases s.len(),
{
    if s.len() == 0 {
        None
    } else if s[0] == '\n' {
        Some(0)
    } else {
        match first_newline(s.drop_first()) {
            Some(i) => Some(i + 1),
            None => None,
        }
    }
}

/// The interpreter and body of a script: after `#!` the first line names
/// the interpreter and the remaining lines are the body; otherwise the
/// interpreter is `sh` and the body is the whole script.
pub open spec fn spec_extract_interpreter(s: Seq<char>) -> (Seq<char>, Seq<char>) {
    if s.len() >= 2 && s[0] == '#' && s[1] == '!' {
        match first_newline(s) {
            Some(i) => (s.subrange(2, i), s.skip(i + 1)),
            None => (s.skip(2), Seq::empty()),
        }
    } else {
        (seq!['s', 'h'], s)
    }
}

/// Split a script into interpreter and body, honouring a `#!` first line.
pub fn extract_interpreter(cmd: &str) -> (r: (String, String))
    ensures
        r.0@ == spec_extract_interpreter(cmd@).0,
        r.1@ == spec_extract_interpreter(cmd@).1,
{
    let cs = str_chars(cmd);
    let n = cs.len();
    if n >= 2 && cs[0] == '#' && cs[1] == '!' {
        let mut nl: usize = 0;
        let mut found = false;
        let mut k: usize = 0;
        while k < n && !found
            invariant
                k <= n,
                n == cs@.len(),
                !found ==> (forall|j: int| 0 <= j < k ==> cs@[j] != '\n'),
                found ==> nl < n && cs@[nl as int] == '\n' && (forall|j: int|
                    0 <= j < nl ==> cs@[j] != '\n'),
            decreases n - k + (if found { 0int } else { 1int }),
        {
            if cs[k] == '\n' {
                nl = k;
                found = true;
            } else {
                k = k + 1;
            }
        }
        proof {
            if found {
                lemma_first_newline_at(cs@, nl as int);
            } else {
                lemma_first_newline_none(cs@);
            }
        }
        if found {
            let mut interp: Vec<char> = Vec::new();
            let mut body: Vec<char> = Vec::new();
            let mut i: usize = 2;
            while i < nl
                invariant
                    2 <= i <= nl || (nl < 2 && i == 2),
                    nl < n,
                    n == cs@.len(),
                    interp@ == cs@.subrange(2, i as int),
                decreases n - i,
            {
                interp.push(cs[i]);
                proof {
                    assert(cs@.subrange(2, i + 1) =~= cs@.subrange(2, i as int).push(
                        cs@[i as int],
                    ));
                }
                i = i + 1;
            }
            let mut j = nl + 1;
            while j < n
                invariant
                    nl + 1 <= j <= n,
                    n == cs@.len(),
                    body@ == cs@.subrange(nl + 1, j as int),
                decreases n - j,
            {
                body.push(cs[j]);
                proof {
                    assert(cs@.subrange(nl + 1, j + 1) =~= cs@.subrange(nl + 1, j as int).push(
                        cs@[j as int],
                    ));
                }
                j = j + 1;
            }
            proof {
                assert(cs@.subrange(nl + 1, n as int) =~= cs@.skip(nl + 1));
                if nl < 2 {
                    assert(cs@[0] != '\n' && cs@[1] != '\n');
                    assert(false);
                }
                assert(interp@ =~= cs@.subrange(2, nl as int));
            }
            (chars_string(&interp), chars_string(&body))
        } else {
            let mut interp: Vec<char> = Vec::new();
            let mut i: usize = 2;
            while i < n
                invariant
                    2 <= i <= n,
                    n == cs@.len(),
                    interp@ == cs@.subrange(2, i as int),
                decreases n - i,
            {
                interp.push(cs[i]);
                proof {
                    assert(cs@.subrange(2, i + 1) =~= cs@.subrange(2, i as int).push(
                        cs@[i as int],
                    ));
                }
                i = i + 1;
            }
            proof {
                assert(cs@.subrange(2, n as int) =~= cs@.skip(2));
            }
            let body = String::new();
            (chars_string(&interp), body)
        }
    } else {
        let sh = String::from_str("sh");
        proof {
            reveal_strlit("sh");
            assert(sh@ =~= seq!['s', 'h']);
        }
        (sh, String::from_str(cmd))
    }
}

/// The first newline really is where the scan stopped.
proof fn lemma_first_newline_at(s: Seq<char>, i: int)
    requires
        0 <= i < s.len(),
        s[i] == '\n',
        forall|j: int| 0 <= j < i ==> s[j] != '\n',
    ensures
        first_newline(s) == Some(i),
    decreases i,
{
    if i == 0 {
    } else {
        assert(s.drop_first()[i - 1] == s[i]);
        assert(forall|j: int| 0 <= j < i - 1 ==> s.drop_first()[j] == s[j + 1]);
        lemma_first_newline_at(s.drop_first(), i - 1);
    }
}

/// A scan that saw no newline means there is none.
proof fn lemma_first_newline_none(s: Seq<char>)
    requires
        forall|j: int| 0 <= j < s.len() ==> s[j] != '\n',
    ensures
        first_newline(s) is None,
    decreases s.len(),
{
    if s.len() > 0 {
        assert(forall|j: int| 0 <= j < s.drop_first().len() ==> s.drop_first()[j] == s[j + 1]);
        lemma_first_newline_none(s.drop_first());
    }
}

/// Decide the outcome of a finished subprocess: on success the captured
/// output becomes a string value; on failure the command text and
/// diagnostic output are reported.
pub fn shell_outcome(success: bool, stdout: String, cmd: String, stderr: String) -> (r: Result<
    Value,
    Error,
>)
    ensures
        success ==> (r matches Ok(v) && v.deep_view() == Jv::String(stdout@)),
        !success ==> (r matches Err(Error::ShellFailed(c, e)) && c@ == cmd@ && e@ == stderr@),
{
    if success {
        Ok(Value::String(stdout))
    } else {
        Err(Error::ShellFailed(cmd, stderr))
    }
}


/// No `$` occurs in `s`.
pub open spec fn no_dollar(s: Seq<char>) -> bool {
    forall|i: int| 0 <= i < s.len() ==> (#[trigger] s[i]) != '$'
}

/// A dollar-free text holds no placeholder at all.
pub proof fn lemma_no_dollar_no_placeholder(s: Seq<char>, name: Seq<char>)
    requires
        no_dollar(s),
    ensures
        !crate::text::contains_seq(s, placeholder(name)),
{
    if crate::text::contains_seq(s, placeholder(name)) {
        let at = choose|at: int| crate::text::matches_at(s, placeholder(name), at);
        assert(s.subrange(at, at + placeholder(name).len())[0] == s[at]);
        assert(placeholder(name)[0] == '$');
        assert(s[at] == '$');
    }
}

/// A placeholder name free of the marker and delimiter characters.
pub open spec fn sane_name(name: Seq<char>) -> bool {
    forall|i: int|
        0 <= i < name.len() ==> #[trigger] name[i] != '$' && name[i] != '(' && name[i] != ')'
}

/// Every `$` in `s` begins the placeholder of one of the parameters from
/// index `k` on.
pub open spec fn dollars_are_placeholders(s: Seq<char>, params: Seq<crate::ast::Param>, k: int)
    -> bool {
    forall|i: int|
        0 <= i < s.len() && (#[trigger] s[i]) == '$' ==> exists|j: int|
            k <= j < params.len() && crate::text::matches_at(s, placeholder(params[j].name@), i)
}

/// Replacement passes over a marker-free prefix unchanged.
proof fn lemma_replace_skips_prefix(s: Seq<char>, pat: Seq<char>, sub: Seq<char>, m: int)
    requires
        pat.len() > 0,
        pat[0] == '$',
        0 <= m <= s.len(),
        forall|i: int| 0 <= i < m ==> (#[trigger] s[i]) != '$',
    ensures
        spec_replace(s, pat, sub) == s.take(m) + spec_replace(s.skip(m), pat, sub),
    decreases m,
{
    if m == 0 {
        assert(s.skip(0) =~= s);
        assert(s.take(0) + spec_replace(s, pat, sub) =~= spec_replace(s, pat, sub));
    } else {
        if s.len() < pat.len() {
            assert(s.skip(m).len() < pat.len());
            assert(spec_replace(s, pat, sub) == s);
            assert(spec_replace(s.skip(m), pat, sub) == s.skip(m));
            assert(s.take(m) + s.skip(m) =~= s);
        } else if s.take(pat.len() as int) == pat {
            assert(s[0] == pat[0]);
            assert(false);
        } else {
            let tl = s.drop_first();
            assert(forall|i: int| 0 <= i < m - 1 ==> (#[trigger] tl[i]) == s[i + 1]);
            lemma_replace_skips_prefix(tl, pat, sub, m - 1);
            assert(tl.skip(m - 1) =~= s.skip(m));
            assert(seq![s[0]] + (tl.take(m - 1) + spec_replace(s.skip(m), pat, sub)) =~= (seq![
                s[0],
            ] + tl.take(m - 1)) + spec_replace(s.skip(m), pat, sub));
            assert(seq![s[0]] + tl.take(m - 1) =~= s.take(m));
        }
    }
}

/// Substituting one parameter's placeholder keeps every other `$` at the
/// head of a later parameter's placeholder.
#[verifier::rlimit(100)]
proof fn lemma_replace_preserves_placeholders(
    s: Seq<char>,
    params: Seq<crate::ast::Param>,
    k: int,
    sub: Seq<char>,
)
    requires
        0 <= k < params.len(),
        forall|j: int| k <= j < params.len() ==> sane_name((#[trigger] params[j]).name@),
        forall|j: int| k < j < params.len() ==> (#[trigger] params[j]).name@ != params[k].name@,
        no_dollar(sub),
        dollars_are_placeholders(s, params, k),
    ensures
        dollars_are_placeholders(
            spec_replace(s, placeholder(params[k].name@), sub),
            params,
            k + 1,
        ),
    decreases s.len(),
{
    let pat = placeholder(params[k].name@);
    let out = spec_replace(s, pat, sub);
    if s.len() < pat.len() {
        assert(out == s);
        assert forall|i: int|
            0 <= i < out.len() && (#[trigger] out[i]) == '$' implies exists|j: int|
            k + 1 <= j < params.len() && crate::text::matches_at(
                out,
                placeholder(params[j].name@),
                i,
            ) by {
            let j = choose|j: int|
                k <= j < params.len() && crate::text::matches_at(
                    s,
                    placeholder(params[j].name@),
                    i,
                );
            if j == k {
                assert(i + pat.len() <= s.len());
                assert(false);
            }
        }
    } else if s.take(pat.len() as int) == pat {
        let rest = s.skip(pat.len() as int);
        assert forall|i: int|
            0 <= i < rest.len() && (#[trigger] rest[i]) == '$' implies exists|j: int|
            k <= j < params.len() && crate::text::matches_at(
                rest,
                placeholder(params[j].name@),
                i,
            ) by {
            assert(s[pat.len() + i] == rest[i]);
            let j = choose|j: int|
                k <= j < params.len() && crate::text::matches_at(
                    s,
                    placeholder(params[j].name@),
                    pat.len() + i,
                );
            let pj = placeholder(params[j].name@);
            assert(rest.subrange(i, i + pj.len()) =~= s.subrange(
                pat.len() + i,
                pat.len() + i + pj.len(),
            ));
            assert(crate::text::matches_at(rest, pj, i));
        }
        lemma_replace_preserves_placeholders(rest, params, k, sub);
        let r2 = spec_replace(rest, pat, sub);
        assert(out == sub + r2);
        assert forall|i: int|
            0 <= i < out.len() && (#[trigger] out[i]) == '$' implies exists|j: int|
            k + 1 <= j < params.len() && crate::text::matches_at(
                out,
                placeholder(params[j].name@),
                i,
            ) by {
            if i < sub.len() {
                assert(out[i] == sub[i]);
                assert(false);
            } else {
                assert(out[i] == r2[i - sub.len()]);
                let j = choose|j: int|
                    k + 1 <= j < params.len() && crate::text::matches_at(
                        r2,
                        placeholder(params[j].name@),
                        i - sub.len(),
                    );
                let pj = placeholder(params[j].name@);
                assert(out.subrange(i, i + pj.len()) =~= r2.subrange(
                    i - sub.len(),
                    i - sub.len() + pj.len(),
                ));
                assert(crate::text::matches_at(out, pj, i));
            }
        }
    } else if s[0] != '$' {
        let tl = s.drop_first();
        assert(out == seq![s[0]] + spec_replace(tl, pat, sub));
        assert forall|i: int|
            0 <= i < tl.len() && (#[trigger] tl[i]) == '$' implies exists|j: int|
            k <= j < params.len() && crate::text::matches_at(
                tl,
                placeholder(params[j].name@),
                i,
            ) by {
            assert(s[1 + i] == tl[i]);
            let j = choose|j: int|
                k <= j < params.len() && crate::text::matches_at(
                    s,
                    placeholder(params[j].name@),
                    1 + i,
                );
            let pj = placeholder(params[j].name@);
            assert(tl.subrange(i, i + pj.len()) =~= s.subrange(1 + i, 1 + i + pj.len()));
            assert(crate::text::matches_at(tl, pj, i));
        }
        lemma_replace_preserves_placeholders(tl, params, k, sub);
        let r2 = spec_replace(tl, pat, sub);
        assert forall|i: int|
            0 <= i < out.len() && (#[trigger] out[i]) == '$' implies exists|j: int|
            k + 1 <= j < params.len() && crate::text::matches_at(
                out,
                placeholder(params[j].name@),
                i,
            ) by {
            if i == 0 {
                assert(out[0] == s[0]);
                assert(false);
            } else {
                assert(out[i] == r2[i - 1]);
                let j = choose|j: int|
                    k + 1 <= j < params.len() && crate::text::matches_at(
                        r2,
                        placeholder(params[j].name@),
                        i - 1,
                    );
                let pj = placeholder(params[j].name@);
                assert(out.subrange(i, i + pj.len()) =~= r2.subrange(i - 1, i - 1 + pj.len()));
                assert(crate::text::matches_at(out, pj, i));
            }
        }
    } else {
        // A kept `$`: it begins a later parameter's placeholder, whose
        // body is marker-free, so replacement passes over it unchanged.
        let j0 = choose|j: int|
            k <= j < params.len() && crate::text::matches_at(s, placeholder(params[j].name@), 0);
        let pj0 = placeholder(params[j0].name@);
        if j0 == k {
            assert(s.subrange(0, pat.len() as int) =~= s.take(pat.len() as int));
            assert(false);
        }
        let lj = pj0.len() as int;
        assert(forall|x: int| 0 <= x < lj ==> s[x] == #[trigger] pj0[x]) by {
            assert(forall|x: int| 0 <= x < lj ==> s.subrange(0, lj)[x] == #[trigger] pj0[x]);
        }
        assert forall|x: int| 1 <= x < lj implies (#[trigger] s[x]) != '$' by {
            assert(s[x] == pj0[x]);
            if x == 1 {
                assert(pj0[1] == '(');
            } else if x == lj - 1 {
                assert(pj0[x] == ')');
            } else {
                assert(pj0[x] == params[j0].name@[x - 2]);
                assert(params[j0].name@[x - 2] != '$');
            }
        }
        let tl = s.drop_first();
        assert(out == seq![s[0]] + spec_replace(tl, pat, sub));
        assert(forall|x: int| 0 <= x < lj - 1 ==> (#[trigger] tl[x]) == s[x + 1]);
        lemma_replace_skips_prefix(tl, pat, sub, lj - 1);
        let far = tl.skip(lj - 1);
        assert(far =~= s.skip(lj));
        assert(out =~= s.take(lj) + spec_replace(far, pat, sub));
        assert forall|i: int|
            0 <= i < far.len() && (#[trigger] far[i]) == '$' implies exists|j: int|
            k <= j < params.len() && crate::text::matches_at(
                far,
                placeholder(params[j].name@),
                i,
            ) by {
            assert(s[lj + i] == far[i]);
            let j = choose|j: int|
                k <= j < params.len() && crate::text::matches_at(
                    s,
                    placeholder(params[j].name@),
                    lj + i,
                );
            let pj = placeholder(params[j].name@);
            assert(far.subrange(i, i + pj.len()) =~= s.subrange(lj + i, lj + i + pj.len()));
            assert(crate::text::matches_at(far, pj, i));
        }
        lemma_replace_preserves_placeholders(far, params, k, sub);
        let r2 = spec_replace(far, pat, sub);
        assert forall|i: int|
            0 <= i < out.len() && (#[trigger] out[i]) == '$' implies exists|j: int|
            k + 1 <= j < params.len() && crate::text::matches_at(
                out,
                placeholder(params[j].name@),
                i,
            ) by {
            if i == 0 {
                assert(out.subrange(0, lj) =~= s.subrange(0, lj));
                assert(crate::text::matches_at(out, pj0, 0));
            } else if i < lj {
                assert(out[i] == s[i]);
                assert(false);
            } else {
                assert(out[i] == r2[i - lj]);
                let j = choose|j: int|
                    k + 1 <= j < params.len() && crate::text::matches_at(
                        r2,
                        placeholder(params[j].name@),
                        i - lj,
                    );
                let pj = placeholder(params[j].name@);
                assert(out.subrange(i, i + pj.len()) =~= r2.subrange(i - lj, i - lj + pj.len()));
                assert(crate::text::matches_at(out, pj, i));
            }
        }
    }
}


/// Substitution leaves no placeholder behind: when the declared names are
/// sane and distinct, every parameter has a (marker-free) text, and every
/// `$` of the script begins a declared placeholder, the substituted script
/// holds no `$` — hence no placeholder of any name.
pub proof fn lemma_substitution_removes_placeholders(
    cmd: Seq<char>,
    params: Seq<crate::ast::Param>,
    args: Seq<(String, Value)>,
)
    requires
        forall|j: int| 0 <= j < params.len() ==> sane_name((#[trigger] params[j]).name@),
        forall|j1: int, j2: int|
            0 <= j1 < j2 < params.len() ==> (#[trigger] params[j1]).name@ != (
            #[trigger] params[j2]).name@,
        forall|j: int| 0 <= j < params.len() ==> subst_text(#[trigger] params[j], args) is Some,
        forall|j: int|
            0 <= j < params.len() ==> no_dollar(subst_text(#[trigger] params[j], args)->0),
        dollars_are_placeholders(cmd, params, 0),
    ensures
        spec_substitute(cmd, params, args) is Ok,
        no_dollar(spec_substitute(cmd, params, args)->Ok_0),
        forall|name: Seq<char>|
            !crate::text::contains_seq(
                spec_substitute(cmd, params, args)->Ok_0,
                placeholder(name),
            ),
    decreases params.len(),
{
    if params.len() == 0 {
        assert(spec_substitute(cmd, params, args) == Ok::<Seq<char>, Seq<char>>(cmd));
        assert(no_dollar(cmd)) by {
            assert forall|i: int| 0 <= i < cmd.len() implies (#[trigger] cmd[i]) != '$' by {
                if cmd[i] == '$' {
                    let j = choose|j: int|
                        0 <= j < params.len() && crate::text::matches_at(
                            cmd,
                            placeholder(params[j].name@),
                            i,
                        );
                    assert(false);
                }
            }
        }
    } else {
        let p0 = params[0];
        let t0 = subst_text(p0, args)->0;
        let cmd2 = spec_replace(cmd, placeholder(p0.name@), t0);
        lemma_replace_preserves_placeholders(cmd, params, 0, t0);
        let tl = params.drop_first();
        assert(forall|j: int| 0 <= j < tl.len() ==> #[trigger] tl[j] == params[j + 1]);
        assert(dollars_are_placeholders(cmd2, tl, 0)) by {
            assert forall|i: int|
                0 <= i < cmd2.len() && (#[trigger] cmd2[i]) == '$' implies exists|j: int|
                0 <= j < tl.len() && crate::text::matches_at(
                    cmd2,
                    placeholder(tl[j].name@),
                    i,
                ) by {
                let j = choose|j: int|
                    1 <= j < params.len() && crate::text::matches_at(
                        cmd2,
                        placeholder(params[j].name@),
                        i,
                    );
                assert(tl[j - 1] == params[j]);
                assert(crate::text::matches_at(cmd2, placeholder(tl[j - 1].name@), i));
            }
        }
        lemma_substitution_removes_placeholders(cmd2, tl, args);
        assert(spec_substitute(cmd, params, args) == spec_substitute(cmd2, tl, args));
    }
    let out = spec_substitute(cmd, params, args)->Ok_0;
    assert forall|name: Seq<char>|
        !crate::text::contains_seq(out, placeholder(name)) by {
        lemma_no_dollar_no_placeholder(out, name);
    }
}

} // verus!
