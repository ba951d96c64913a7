//! Argument handling for the built-in template functions.
//!
//! `shell(cmd, interpreter?, …env)` runs a command line: `cmd` must be a
//! string argument, `interpreter` defaults to `sh`, and every further
//! string argument becomes an environment variable of the subprocess.
//! `read_file(file_path)` returns a file's contents.  The subprocess and
//! the file system are driven by the surrounding application; the argument
//! validation here decides exactly what runs.

use vstd::prelude::*;
use crate::command::args_lookup;
use crate::error::Error;
use crate::value::Value;

verus! {

/// What the built-in `shell` function is about to run.
#[derive(Debug)]
pub struct ShellInvocation {
    pub cmd: String,
    pub interpreter: String,
    pub env: Vec<(String, String)>,
}

/// The environment overlay of a `shell` call: every string argument except
/// the reserved `cmd` and `interpreter`, in argument order.
pub open spec fn spec_shell_env(args: Seq<(String, Value)>) -> Seq<(String, String)>
    decreases args.len(),
{
    if args.len() == 0 {
        Seq::empty()
    } else {
        let tail = spec_shell_env(args.drop_first());
        if args[0].0@ != "cmd"@ && args[0].0@ != "interpreter"@ && args[0].1 is String {
            seq![(args[0].0, args[0].1->String_0)] + tail
        } else {
            tail
        }
    }
}

/// The interpreter of a `shell` call: the string argument `interpreter`,
/// or `sh`.
pub open spec fn spec_shell_interpreter(args: Seq<(String, Value)>) -> Seq<char> {
    match args_lookup(args, "interpreter"@) {
        Some(v) => match v {
            Value::String(s) => s@,
            _ => "sh"@,
        },
        None => "sh"@,
    }
}

/// Validate the arguments of the built-in `shell` function.
///
/// Fails with `MissingParam("cmd")` exactly when `cmd` is absent or not a
/// string; otherwise returns the command, the interpreter and the
/// environment overlay.
pub fn shell_args(args: &Vec<(String, Value)>) -> (r: Result<ShellInvocation, Error>)
    ensures
        match args_lookup(args@, "cmd"@) {
            Some(Value::String(c)) => match r {
                Ok(inv) => inv.cmd@ == c@ && inv.interpreter@ == spec_shell_interpreter(args@)
                    && inv.env@ == spec_shell_env(args@),
                Err(_) => false,
            },
            _ => r matches Err(Error::MissingParam(n)) && n@ == "cmd"@,
        },
{
    let cmd_key = String::from_str("cmd");
    let cmd: String = match crate::command::args_get(args, &cmd_key) {
        Some(v) => match v {
            Value::String(s) => s.clone(),
            _ => {
                return Err(Error::MissingParam(cmd_key));
            },
        },
        None => {
            return Err(Error::MissingParam(cmd_key));
        },
    };
    let interp_key = String::from_str("interpreter");
    let interpreter: String = match crate::command::args_get(args, &interp_key) {
        Some(v) => match v {
            Value::String(s) => s.clone(),
            _ => String::from_str("sh"),
        },
        None => String::from_str("sh"),
    };
    let mut env: Vec<(String, String)> = Vec::new();
    let n = args.len();
    proof {
        assert(args@.skip(0) =~= args@);
        assert(env@ + spec_shell_env(args@) =~= spec_shell_env(args@));
    }
    for i in 0..n
        invariant
            n == args@.len(),
            cmd_key@ == "cmd"@,
            interp_key@ == "interpreter"@,
            spec_shell_env(args@) == env@ + spec_shell_env(args@.skip(i as int)),
        {
        proof {
            assert(args@.skip(i as int)[0] == args@[i as int]);
            assert(args@.skip(i as int).drop_first() =~= args@.skip(i + 1));
        }
        let is_reserved = args[i].0 == cmd_key || args[i].0 == interp_key;
        if !is_reserved {
            match &args[i].1 {
                Value::String(s) => {
                    let ghost e0 = env@;
                    env.push((args[i].0.clone(), s.clone()));
                    proof {
                        assert(env@ =~= e0 + seq![(args@[i as int].0, args@[i as int].1->String_0)]);
                        assert((e0 + seq![(args@[i as int].0, args@[i as int].1->String_0)])
                            + spec_shell_env(args@.skip(i + 1)) =~= e0 + (seq![
                            (args@[i as int].0, args@[i as int].1->String_0),
                        ] + spec_shell_env(args@.skip(i + 1))));
                    }
                },
                _ => {},
            }
        }
    }
    proof {
        assert(args@.skip(n as int) =~= Seq::<(String, Value)>::empty());
        assert(env@ + Seq::<(String, String)>::empty() =~= env@);
    }
    Ok(ShellInvocation { cmd, interpreter, env })
}

/// Validate the argument of the built-in `read_file` function.
///
/// Returns the path exactly when `file_path` is a string argument; fails
/// with `MissingParam("file_path")` when it is absent and `MarshalError`
/// when it is not a string.
pub fn read_file_path(args: &Vec<(String, Value)>) -> (r: Result<String, Error>)
    ensures
        match args_lookup(args@, "file_path"@) {
            Some(v) => match v {
                Value::String(p) => r matches Ok(out) && out@ == p@,
                _ => r matches Err(Error::MarshalError),
            },
            None => r matches Err(Error::MissingParam(n)) && n@ == "file_path"@,
        },
{
    let key = String::from_str("file_path");
    match crate::command::args_get(args, &key) {
        Some(v) => match v {
            Value::String(s) => Ok(s.clone()),
            _ => Err(Error::MarshalError),
        },
        None => Err(Error::MissingParam(key)),
    }
}

} // verus!
