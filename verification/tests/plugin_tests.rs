use jintemplify::ast::{FilterDeclaration, FunctionDeclaration, Param, Wasm};
use jintemplify::manifest::manifest_from_text;
use jintemplify::plugin::{Executor, Plugin, Registry};
use jintemplify::wasm_example::{combine_strings, my_test_filter, Input};
use jintemplify::{Error, Value};

fn shell_function_decl(name: &str, script: &str, params: Vec<&str>) -> FunctionDeclaration {
    FunctionDeclaration {
        name: name.to_string(),
        params: Some(
            params
                .into_iter()
                .map(|p| Param { name: p.to_string(), description: None, default: None })
                .collect(),
        ),
        env: None,
        description: None,
        wasm: None,
        script: Some(script.to_string()),
    }
}

#[test]
fn test_plugin_function_call() {
    let func_decl = FunctionDeclaration {
        name: "echo_test".to_string(),
        params: Some(vec![Param {
            name: "msg".to_string(),
            description: Some("Echoes a message".to_string()),
            default: None,
        }]),
        description: None,
        env: None,
        wasm: None,
        script: Some("echo $(msg)".to_string()),
    };

    let args = vec![("msg".to_string(), Value::String("Hello, world!".to_string()))];

    let func = func_decl.create().unwrap();
    assert_eq!(func.name, "echo_test");
    match &func.executor {
        Executor::Shell(command) => {
            let prepared =
                jintemplify::command::prepare_command(&command.script, &command.params, &args)
                    .unwrap();
            assert_eq!(prepared, "echo Hello, world!");
        },
        _ => panic!("expected a shell backend"),
    }
}

#[test]
fn create_with_wasm_binding() {
    let decl = FunctionDeclaration {
        name: "combine".to_string(),
        params: None,
        env: None,
        description: None,
        wasm: Some(Wasm { path: "m.wasm".to_string(), import: "combine".to_string() }),
        script: None,
    };
    let f = decl.create().unwrap();
    match f.executor {
        Executor::Wasm(d) => {
            assert_eq!(d.wasm.path, "m.wasm");
            assert_eq!(d.wasm.import, "combine");
        },
        _ => panic!("expected a wasm backend"),
    }
}

#[test]
fn create_rejects_two_bodies() {
    let decl = FunctionDeclaration {
        name: "both".to_string(),
        params: None,
        env: None,
        description: None,
        wasm: Some(Wasm { path: "m.wasm".to_string(), import: "f".to_string() }),
        script: Some("echo hi".to_string()),
    };
    assert!(matches!(decl.create(), Err(Error::BadDeclaration)));
}

#[test]
fn create_rejects_no_body() {
    let decl = FilterDeclaration {
        name: "neither".to_string(),
        params: None,
        env: None,
        description: None,
        wasm: None,
        script: None,
    };
    assert!(matches!(decl.create(), Err(Error::BadDeclaration)));
}

#[test]
fn create_rejects_reserved_parameter_names() {
    let decl = shell_function_decl("bad", "echo $(cmd)", vec!["cmd"]);
    assert!(matches!(decl.create(), Err(Error::BadDeclaration)));
    let decl = shell_function_decl("bad2", "echo hi", vec!["interpreter"]);
    assert!(matches!(decl.create(), Err(Error::BadDeclaration)));
}

#[test]
fn create_rejects_reserved_env_keys() {
    let mut decl = shell_function_decl("bad3", "echo hi", vec![]);
    decl.env = Some(vec![("cmd".to_string(), "oops".to_string())]);
    assert!(matches!(decl.create(), Err(Error::BadDeclaration)));
}

#[test]
fn registry_registers_and_finds_by_name() {
    let plugin = Plugin {
        functions: Some(vec![
            shell_function_decl("greet", "echo $(msg)", vec!["msg"]),
            shell_function_decl("bye", "echo bye", vec![]),
        ]),
        filters: None,
    };
    let mut reg = Registry::new();
    reg.register_plugin(&plugin).unwrap();
    let f = reg.find_function(&"greet".to_string()).unwrap();
    assert_eq!(f.name, "greet");
    assert!(reg.find_function(&"missing".to_string()).is_none());
}

#[test]
fn registering_twice_keeps_the_same_bindings() {
    let plugin = Plugin {
        functions: Some(vec![shell_function_decl("greet", "echo $(msg)", vec!["msg"])]),
        filters: None,
    };
    let mut reg = Registry::new();
    reg.register_plugin(&plugin).unwrap();
    reg.register_plugin(&plugin).unwrap();
    let f = reg.find_function(&"greet".to_string()).unwrap();
    assert_eq!(f.name, "greet");
    match &f.executor {
        Executor::Shell(c) => assert_eq!(c.script, "echo $(msg)"),
        _ => panic!("expected a shell backend"),
    }
}

#[test]
fn later_registration_replaces_earlier() {
    let mut reg = Registry::new();
    let first = Plugin {
        functions: Some(vec![shell_function_decl("greet", "echo one", vec![])]),
        filters: None,
    };
    let second = Plugin {
        functions: Some(vec![shell_function_decl("greet", "echo two", vec![])]),
        filters: None,
    };
    reg.register_plugin(&first).unwrap();
    reg.register_plugin(&second).unwrap();
    let f = reg.find_function(&"greet".to_string()).unwrap();
    match &f.executor {
        Executor::Shell(c) => assert_eq!(c.script, "echo two"),
        _ => panic!("expected a shell backend"),
    }
}

#[test]
fn register_plugin_aborts_on_bad_declaration() {
    let plugin = Plugin {
        functions: Some(vec![FunctionDeclaration {
            name: "broken".to_string(),
            params: None,
            env: None,
            description: None,
            wasm: None,
            script: None,
        }]),
        filters: None,
    };
    let mut reg = Registry::new();
    assert!(matches!(reg.register_plugin(&plugin), Err(Error::BadDeclaration)));
}

#[test]
fn manifest_text_decodes_declarations() {
    let text = "functions:\n  - name: greet\n    params:\n      - name: msg\n        \
                description: the message\n    script: echo $(msg)\nfilters:\n  - name: deco\n    \
                wasm:\n      path: m.wasm\n      import: deco\n    params:\n      - name: suffix\n";
    let plugin = manifest_from_text(text).unwrap();
    let functions = plugin.functions.as_ref().unwrap();
    assert_eq!(functions.len(), 1);
    assert_eq!(functions[0].name, "greet");
    assert_eq!(functions[0].script.as_deref(), Some("echo $(msg)"));
    let params = functions[0].params.as_ref().unwrap();
    assert_eq!(params[0].name, "msg");
    assert_eq!(params[0].description.as_deref(), Some("the message"));
    let filters = plugin.filters.as_ref().unwrap();
    assert_eq!(filters[0].name, "deco");
    let wasm = filters[0].wasm.as_ref().unwrap();
    assert_eq!(wasm.path, "m.wasm");
    assert_eq!(wasm.import, "deco");
    assert!(filters[0].script.is_none());
}

#[test]
fn manifest_with_env_decodes_overlay() {
    let text = "functions:\n  - name: hello\n    script: echo $GREETING\n    env:\n      \
                GREETING: hi\n";
    let plugin = manifest_from_text(text).unwrap();
    let functions = plugin.functions.unwrap();
    let env = functions[0].env.as_ref().unwrap();
    assert_eq!(env.len(), 1);
    assert_eq!(env[0], ("GREETING".to_string(), "hi".to_string()));
}

#[test]
fn bad_manifest_is_rejected_at_each_level() {
    assert!(matches!(manifest_from_text("key: value:"), Err(Error::BadManifest)));
    assert!(matches!(manifest_from_text("- just\n- a\n- list\n"), Err(Error::BadManifest)));
    assert!(matches!(
        manifest_from_text("functions:\n  - script: missing name\n"),
        Err(Error::BadManifest)
    ));
    assert!(matches!(
        manifest_from_text("functions:\n  - name: x\n    params: 5\n"),
        Err(Error::BadManifest)
    ));
}

#[test]
fn guest_combine_strings_concatenates() {
    let input = Input { var1: "Hello".to_string(), var2: " World!".to_string() };
    assert_eq!(combine_strings(input), "Hello World!");
}

#[test]
fn guest_filter_decorates_pipeline_value() {
    let input2 = Input { var1: "Hello".to_string(), var2: " World!".to_string() };
    assert_eq!(my_test_filter("test2".to_string(), input2), "filter: test2 => Hello World!");
}
