//! Shell-backed extension bodies.
//!
//! A shell function substitutes its declared parameters into the script; a
//! shell filter additionally binds the pipeline value to the placeholder
//! `$(input)` (a declared parameter of that name is skipped; the
//! stringified value itself takes its place).

use vstd::prelude::*;
use crate::ast::Param;
use crate::codec::spec_stringify;
use crate::command::{placeholder, prepare_command, replace_placeholder, spec_substitute, subst_text};
use crate::error::Error;
use crate::text::{chars_string, replace_chars, spec_replace, str_chars};
use crate::value::{Jv, Value};

verus! {

/// A script with its declared parameters and environment overlay.
#[derive(Debug)]
pub struct ShellCommand {
    pub script: String,
    pub params: Option<Vec<Param>>,
    pub env: Option<Vec<(String, String)>>,
}

/// A shell-backed template function.
#[derive(Debug)]
pub struct ShellFunction {
    pub command: ShellCommand,
}

/// A shell-backed template filter.
#[derive(Debug)]
pub struct ShellFilter {
    pub command: ShellCommand,
}

/// Substitute the parameters of a filter in declaration order, skipping a
/// parameter named `input`.
pub open spec fn spec_substitute_filter(
    cmd: Seq<char>,
    params: Seq<Param>,
    args: Seq<(String, Value)>,
) -> Result<Seq<char>, Seq<char>>
    decreases params.len(),
{
    if params.len() == 0 {
        Ok(cmd)
    } else if params[0].name@ == "input"@ {
        spec_substitute_filter(cmd, params.drop_first(), args)
    } else {
        match subst_text(params[0], args) {
            None => Err(params[0].name@),
            Some(t) => spec_substitute_filter(
                spec_replace(cmd, placeholder(params[0].name@), t),
                params.drop_first(),
                args,
            ),
        }
    }
}

/// The full filter preparation: parameter substitution, then the
/// stringified pipeline value for `$(input)`.
pub open spec fn spec_prepare_filter(
    script: Seq<char>,
    params: Seq<Param>,
    value: Jv,
    args: Seq<(String, Value)>,
) -> Result<Seq<char>, Seq<char>> {
    match spec_substitute_filter(script, params, args) {
        Ok(c) => Ok(spec_replace(c, placeholder("input"@), spec_stringify(value))),
        Err(n) => Err(n),
    }
}

/// Substitute a filter's parameters and its pipeline value into the script.
pub fn prepare_command_filter(
    script: &String,
    params: &Option<Vec<Param>>,
    value: &Value,
    args: &Vec<(String, Value)>,
) -> (r: Result<String, Error>)
    ensures
        match spec_prepare_filter(
            script@,
            crate::ast::params_seq(*params),
            value.deep_view(),
            args@,
        ) {
            Ok(cmd) => match r {
                Ok(out) => out@ == cmd,
                Err(_) => false,
            },
            Err(name) => r matches Err(Error::MissingParam(n)) && n@ == name,
        },
{
    let mut cur: String = script.clone();
    let input_name = String::from_str("input");
    if params.is_some() {
        let ps = params.as_ref().unwrap();
        proof {
            assert(crate::ast::params_seq(*params) == ps@);
            assert(ps@.skip(0) =~= ps@);
        }
        let n = ps.len();
        for i in 0..n
            invariant
                n == ps@.len(),
                crate::ast::params_seq(*params) == ps@,
                input_name@ == "input"@,
                spec_substitute_filter(script@, ps@, args@) == spec_substitute_filter(
                    cur@,
                    ps@.skip(i as int),
                    args@,
                ),
            {
            proof {
                assert(ps@.skip(i as int)[0] == ps@[i as int]);
                assert(ps@.skip(i as int).drop_first() =~= ps@.skip(i + 1));
            }
            if !(ps[i].name == input_name) {
                match replace_placeholder(&cur, &ps[i], args) {
                    Ok(next) => {
                        cur = next;
                    },
                    Err(e) => {
                        proof {
                            assert(subst_text(ps@[i as int], args@) is None);
                            assert(spec_substitute_filter(cur@, ps@.skip(i as int), args@)
                                matches Err(nm) && nm == ps@[i as int].name@);
                        }
                        return Err(e);
                    },
                }
            }
        }
        proof {
            assert(ps@.skip(n as int) =~= Seq::<Param>::empty());
        }
    } else {
        proof {
            assert(crate::ast::params_seq(*params) =~= Seq::<Param>::empty());
        }
    }
    let vs = crate::codec::value_to_str(value);
    let vcs = str_chars(vs.as_str());
    let mut pat: Vec<char> = Vec::new();
    pat.push('$');
    pat.push('(');
    pat.push('i');
    pat.push('n');
    pat.push('p');
    pat.push('u');
    pat.push('t');
    pat.push(')');
    proof {
        reveal_strlit("input");
        assert(pat@ =~= placeholder("input"@));
    }
    let cmd_chars = str_chars(cur.as_str());
    let out = replace_chars(&cmd_chars, &pat, &vcs);
    Ok(chars_string(&out))
}

impl ShellFunction {
    /// The command line this function runs for the given arguments.
    pub fn prepare(&self, args: &Vec<(String, Value)>) -> (r: Result<String, Error>)
        ensures
            match spec_substitute(
                self.command.script@,
                crate::ast::params_seq(self.command.params),
                args@,
            ) {
                Ok(cmd) => match r {
                    Ok(out) => out@ == cmd,
                    Err(_) => false,
                },
                Err(name) => r matches Err(Error::MissingParam(n)) && n@ == name,
            },
    {
        prepare_command(&self.command.script, &self.command.params, args)
    }
}

impl ShellFilter {
    /// The command line this filter runs for the given pipeline value and
    /// arguments.
    pub fn prepare(&self, value: &Value, args: &Vec<(String, Value)>) -> (r: Result<String, Error>)
        ensures
            match spec_prepare_filter(
                self.command.script@,
                crate::ast::params_seq(self.command.params),
                value.deep_view(),
                args@,
            ) {
                Ok(cmd) => match r {
                    Ok(out) => out@ == cmd,
                    Err(_) => false,
                },
                Err(name) => r matches Err(Error::MissingParam(n)) && n@ == name,
            },
    {
        prepare_command_filter(&self.command.script, &self.command.params, value, args)
    }
}

} // verus!
