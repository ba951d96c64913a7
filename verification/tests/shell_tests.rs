use jintemplify::ast::Param;
use jintemplify::command::{extract_interpreter, prepare_command, replace_placeholder};
use jintemplify::function::{read_file_path, shell_args};
use jintemplify::shell_plugin::{prepare_command_filter, ShellCommand, ShellFilter, ShellFunction};
use jintemplify::{Error, Value};

fn param(name: &str, default: Option<&str>) -> Param {
    Param {
        name: name.to_string(),
        description: None,
        default: default.map(|d| d.to_string()),
    }
}

fn arg(name: &str, text: &str) -> (String, Value) {
    (name.to_string(), Value::String(text.to_string()))
}

#[test]
fn shebang_selects_interpreter() {
    let (interp, body) = extract_interpreter("#!/usr/bin/env bash\necho one\necho two");
    assert_eq!(interp, "/usr/bin/env bash");
    assert_eq!(body, "echo one\necho two");
}

#[test]
fn no_shebang_runs_under_sh() {
    let (interp, body) = extract_interpreter("echo $(msg)");
    assert_eq!(interp, "sh");
    assert_eq!(body, "echo $(msg)");
}

#[test]
fn shebang_without_newline_keeps_empty_body() {
    let (interp, body) = extract_interpreter("#!/bin/bash");
    assert_eq!(interp, "/bin/bash");
    assert_eq!(body, "");
}

#[test]
fn greet_substitutes_argument() {
    let script = "echo $(msg)".to_string();
    let params = Some(vec![param("msg", None)]);
    let args = vec![arg("msg", "hi")];
    let cmd = prepare_command(&script, &params, &args).unwrap();
    assert_eq!(cmd, "echo hi");
}

#[test]
fn greet_without_argument_is_missing_param() {
    let script = "echo $(msg)".to_string();
    let params = Some(vec![param("msg", None)]);
    let args: Vec<(String, Value)> = vec![];
    match prepare_command(&script, &params, &args) {
        Err(Error::MissingParam(name)) => assert_eq!(name, "msg"),
        _ => panic!("expected MissingParam"),
    }
}

#[test]
fn default_fills_missing_argument() {
    let script = "echo $(msg)".to_string();
    let p = param("msg", Some("fallback"));
    let out = replace_placeholder(&script, &p, &vec![]).unwrap();
    assert_eq!(out, "echo fallback");
}

#[test]
fn substitution_replaces_every_occurrence() {
    let script = "echo $(a) and $(a) then $(b)".to_string();
    let params = Some(vec![param("a", None), param("b", None)]);
    let args = vec![arg("a", "x"), arg("b", "y")];
    let cmd = prepare_command(&script, &params, &args).unwrap();
    assert_eq!(cmd, "echo x and x then y");
}

#[test]
fn non_string_arguments_are_stringified() {
    let script = "emit $(n) $(flag) $(obj)".to_string();
    let params = Some(vec![param("n", None), param("flag", None), param("obj", None)]);
    let args = vec![
        ("n".to_string(), Value::Number(7)),
        ("flag".to_string(), Value::Bool(true)),
        ("obj".to_string(), Value::Object(vec![("k".to_string(), Value::Number(1))])),
    ];
    let cmd = prepare_command(&script, &params, &args).unwrap();
    assert_eq!(cmd, "emit 7 true {\"k\":1}");
}

#[test]
fn upper_filter_binds_input() {
    let script = "echo $(input) | tr a-z A-Z".to_string();
    let params = Some(vec![param("input", None)]);
    let value = Value::String("abc".to_string());
    let args: Vec<(String, Value)> = vec![];
    let cmd = prepare_command_filter(&script, &params, &value, &args).unwrap();
    assert_eq!(cmd, "echo abc | tr a-z A-Z");
}

#[test]
fn filter_prepare_method_matches_free_function() {
    let f = ShellFilter {
        command: ShellCommand {
            script: "echo $(input)".to_string(),
            params: None,
            env: None,
        },
    };
    let value = Value::String("x".to_string());
    let cmd = f.prepare(&value, &vec![]).unwrap();
    assert_eq!(cmd, "echo x");
}

#[test]
fn function_prepare_method_substitutes() {
    let f = ShellFunction {
        command: ShellCommand {
            script: "echo $(msg)".to_string(),
            params: Some(vec![param("msg", None)]),
            env: None,
        },
    };
    let cmd = f.prepare(&vec![arg("msg", "Hello, world!")]).unwrap();
    assert_eq!(cmd, "echo Hello, world!");
}

#[test]
fn test_shell() {
    let mut args = vec![arg("cmd", "echo hello")];
    let inv = shell_args(&args).unwrap();
    assert_eq!(inv.cmd, "echo hello");
    assert_eq!(inv.interpreter, "sh");
    assert!(inv.env.is_empty());

    args.push(arg("interpreter", "/bin/bash"));
    let inv = shell_args(&args).unwrap();
    assert_eq!(inv.cmd, "echo hello");
    assert_eq!(inv.interpreter, "/bin/bash");
}

#[test]
fn shell_env_collects_string_arguments() {
    let args = vec![
        arg("cmd", "env"),
        arg("GREETING", "hi"),
        ("COUNT".to_string(), Value::Number(3)),
        arg("interpreter", "sh"),
        arg("NAME", "world"),
    ];
    let inv = shell_args(&args).unwrap();
    assert_eq!(inv.env, vec![
        ("GREETING".to_string(), "hi".to_string()),
        ("NAME".to_string(), "world".to_string()),
    ]);
}

#[test]
fn shell_requires_cmd() {
    match shell_args(&vec![arg("interpreter", "sh")]) {
        Err(Error::MissingParam(name)) => assert_eq!(name, "cmd"),
        _ => panic!("expected MissingParam"),
    }
    match shell_args(&vec![("cmd".to_string(), Value::Number(1))]) {
        Err(Error::MissingParam(name)) => assert_eq!(name, "cmd"),
        _ => panic!("expected MissingParam"),
    }
}

#[test]
fn read_file_argument_validation() {
    let ok = read_file_path(&vec![arg("file_path", "notes.txt")]).unwrap();
    assert_eq!(ok, "notes.txt");
    assert!(matches!(read_file_path(&vec![]), Err(Error::MissingParam(_))));
    assert!(matches!(
        read_file_path(&vec![("file_path".to_string(), Value::Number(1))]),
        Err(Error::MarshalError)
    ));
}
