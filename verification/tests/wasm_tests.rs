use jintemplify::ast::{Param, Wasm, WasmDeclartion, WasmFilter, WasmFunction};
use jintemplify::wasm_plugin::{
    decode_wasm_output, descriptor_in_bounds, pages_for_input, parse_return_values,
    wasm_input_frame, ReturnValues,
};
use jintemplify::{to_json, Error, Value};

fn param(name: &str) -> Param {
    Param { name: name.to_string(), description: None, default: None }
}

fn arg(name: &str, text: &str) -> (String, Value) {
    (name.to_string(), Value::String(text.to_string()))
}

fn decl(params: Vec<Param>) -> WasmDeclartion {
    WasmDeclartion {
        wasm: Wasm { path: "m.wasm".to_string(), import: "combine".to_string() },
        params: Some(params),
    }
}

#[test]
fn filter_params_keeps_declared_arguments_in_order() {
    let d = decl(vec![param("var1"), param("var2")]);
    let args = vec![arg("extra", "zzz"), arg("var2", " World"), arg("var1", "Hello")];
    let kept = d.filter_params(&args);
    assert_eq!(kept.len(), 2);
    assert_eq!(kept[0].0, "var1");
    assert_eq!(to_json(&kept[0].1), r#""Hello""#);
    assert_eq!(kept[1].0, "var2");
    assert_eq!(to_json(&kept[1].1), r#"" World""#);
}

#[test]
fn filter_params_drops_unmatched_parameters() {
    let d = decl(vec![param("var1"), param("var2")]);
    let args = vec![arg("var2", "x")];
    let kept = d.filter_params(&args);
    assert_eq!(kept.len(), 1);
    assert_eq!(kept[0].0, "var2");
}

#[test]
fn function_frame_wraps_arguments() {
    let f = WasmFunction { decl: decl(vec![param("var1"), param("var2")]) };
    let args = vec![arg("var1", "Hello"), arg("var2", " World")];
    let bytes = f.input_frame(&args);
    assert_eq!(
        String::from_utf8(bytes).unwrap(),
        r#"{"params":[{"var1":"Hello","var2":" World"}]}"#
    );
}

#[test]
fn filter_frame_prepends_pipeline_value() {
    let f = WasmFilter {
        decl: WasmDeclartion {
            wasm: Wasm { path: "m.wasm".to_string(), import: "deco".to_string() },
            params: Some(vec![param("suffix")]),
        },
    };
    let value = Value::String("x".to_string());
    let args = vec![arg("suffix", "!")];
    let bytes = f.input_frame(&value, &args);
    assert_eq!(String::from_utf8(bytes).unwrap(), r#"{"params":["x",{"suffix":"!"}]}"#);
}

#[test]
fn frame_drops_undeclared_arguments() {
    let d = decl(vec![param("var1")]);
    let args = vec![arg("var1", "a"), arg("sneaky", "b")];
    let bytes = wasm_input_frame(&d, &args, None);
    assert_eq!(String::from_utf8(bytes).unwrap(), r#"{"params":[{"var1":"a"}]}"#);
}

#[test]
fn return_descriptor_is_little_endian() {
    let bytes: Vec<u8> = vec![0x10, 0x00, 0x00, 0x00, 0x04, 0x01, 0x00, 0x00];
    let rv = parse_return_values(&bytes).unwrap();
    assert_eq!(rv.ptr, 16);
    assert_eq!(rv.len, 260);
}

#[test]
fn short_descriptor_is_a_trap() {
    let bytes: Vec<u8> = vec![1, 2, 3];
    assert!(matches!(parse_return_values(&bytes), Err(Error::WasmTrap)));
}

#[test]
fn descriptor_bounds_check() {
    let rv = ReturnValues { ptr: 100, len: 28 };
    assert!(descriptor_in_bounds(&rv, 128));
    assert!(!descriptor_in_bounds(&rv, 127));
}

#[test]
fn growth_is_page_rounded() {
    assert_eq!(pages_for_input(0), 0);
    assert_eq!(pages_for_input(1), 1);
    assert_eq!(pages_for_input(65536), 1);
    assert_eq!(pages_for_input(65537), 2);
}

#[test]
fn output_with_result_yields_value() {
    let out = decode_wasm_output(br#"{"result": "Hello World"}"#.to_vec()).unwrap();
    assert_eq!(to_json(&out), r#""Hello World""#);
}

#[test]
fn output_with_exception_is_guest_error() {
    let r = decode_wasm_output(br#"{"result": null, "exception": "boom"}"#.to_vec());
    match r {
        Err(Error::GuestError(msg)) => assert_eq!(msg, "boom"),
        _ => panic!("expected GuestError"),
    }
}

#[test]
fn empty_or_null_exception_falls_through_to_result() {
    let out = decode_wasm_output(br#"{"result": 5, "exception": ""}"#.to_vec()).unwrap();
    assert_eq!(to_json(&out), "5");
    let out = decode_wasm_output(br#"{"result": 6, "exception": null}"#.to_vec()).unwrap();
    assert_eq!(to_json(&out), "6");
}

#[test]
fn malformed_outputs_are_marshal_errors() {
    assert!(matches!(decode_wasm_output(vec![0xFF, 0xFE]), Err(Error::MarshalError)));
    assert!(matches!(decode_wasm_output(b"not json".to_vec()), Err(Error::MarshalError)));
    assert!(matches!(decode_wasm_output(b"[1,2]".to_vec()), Err(Error::MarshalError)));
    assert!(matches!(decode_wasm_output(b"{\"other\": 1}".to_vec()), Err(Error::MarshalError)));
    assert!(matches!(
        decode_wasm_output(br#"{"result": 1, "exception": 7}"#.to_vec()),
        Err(Error::MarshalError)
    ));
}
