//! The manifest loader's typed decoding.
//!
//! A manifest is YAML; rendered and read into a JSON-shaped value, it must
//! be an object with optional `functions` and `filters` lists of
//! declarations.  Every shape violation is `BadManifest`.  Reading the file
//! and rendering it through the template engine happen in the surrounding
//! application; the decoding into declarations is verified here.

use vstd::prelude::*;
use crate::ast::{FilterDeclaration, FunctionDeclaration, Param, ParamModel, Wasm, WasmModel};
use crate::error::Error;
use crate::filter::yaml_as_json;
use crate::plugin::Plugin;
use crate::value::{spec_lookup, Jv, Value};

verus! {

/// Model of a declaration, common to functions and filters.
pub struct DeclModel {
    pub name: Seq<char>,
    pub params: Option<Seq<ParamModel>>,
    pub env: Option<Seq<(Seq<char>, Seq<char>)>>,
    pub description: Option<Seq<char>>,
    pub wasm: Option<WasmModel>,
    pub script: Option<Seq<char>>,
}

impl DeepView for FunctionDeclaration {
    type V = DeclModel;

    open spec fn deep_view(&self) -> DeclModel {
        DeclModel {
            name: self.name@,
            params: self.params.deep_view(),
            env: self.env.deep_view(),
            description: self.description.deep_view(),
            wasm: self.wasm.deep_view(),
            script: self.script.deep_view(),
        }
    }
}

impl DeepView for FilterDeclaration {
    type V = DeclModel;

    open spec fn deep_view(&self) -> DeclModel {
        DeclModel {
            name: self.name@,
            params: self.params.deep_view(),
            env: self.env.deep_view(),
            description: self.description.deep_view(),
            wasm: self.wasm.deep_view(),
            script: self.script.deep_view(),
        }
    }
}

/// Model of a whole manifest.
pub struct PluginModel {
    pub functions: Option<Seq<DeclModel>>,
    pub filters: Option<Seq<DeclModel>>,
}

impl DeepView for Plugin {
    type V = PluginModel;

    open spec fn deep_view(&self) -> PluginModel {
        PluginModel {
            functions: self.functions.deep_view(),
            filters: self.filters.deep_view(),
        }
    }
}

/// A required string member.
pub open spec fn sp_string_field(ms: Seq<(Seq<char>, Jv)>, key: Seq<char>) -> Option<Seq<char>> {
    match spec_lookup(ms, key) {
        Some(Jv::String(s)) => Some(s),
        _ => None,
    }
}

/// An optional string member: absent or null means none; a non-string is a
/// shape error, told apart as `None`.
pub open spec fn sp_opt_string_field(ms: Seq<(Seq<char>, Jv)>, key: Seq<char>) -> Option<
    Option<Seq<char>>,
> {
    match spec_lookup(ms, key) {
        None => Some(None),
        Some(Jv::Null) => Some(None),
        Some(Jv::String(s)) => Some(Some(s)),
        Some(_) => None,
    }
}

/// A parameter declaration: an object with a required `name` and optional
/// `description` and `default` strings.
pub open spec fn sp_param(jv: Jv) -> Option<ParamModel> {
    match jv {
        Jv::Object(ms) => match (
            sp_string_field(ms, "name"@),
            sp_opt_string_field(ms, "description"@),
            sp_opt_string_field(ms, "default"@),
        ) {
            (Some(name), Some(description), Some(default)) => Some(
                ParamModel { name, description, default },
            ),
            _ => None,
        },
        _ => None,
    }
}

/// A list of parameter declarations.
pub open spec fn sp_params(es: Seq<Jv>) -> Option<Seq<ParamModel>>
    decreases es.len(),
{
    if es.len() == 0 {
        Some(Seq::empty())
    } else {
        match (sp_param(es[0]), sp_params(es.drop_first())) {
            (Some(p), Some(tail)) => Some(seq![p] + tail),
            _ => None,
        }
    }
}

/// An environment overlay: every member value must be a string.
pub open spec fn sp_env(ms: Seq<(Seq<char>, Jv)>) -> Option<Seq<(Seq<char>, Seq<char>)>>
    decreases ms.len(),
{
    if ms.len() == 0 {
        Some(Seq::empty())
    } else {
        match (ms[0].1, sp_env(ms.drop_first())) {
            (Jv::String(s), Some(tail)) => Some(seq![(ms[0].0, s)] + tail),
            _ => None,
        }
    }
}

/// A wasm binding: an object with required `path` and `import` strings.
pub open spec fn sp_wasm(jv: Jv) -> Option<WasmModel> {
    match jv {
        Jv::Object(ms) => match (sp_string_field(ms, "path"@), sp_string_field(ms, "import"@)) {
            (Some(path), Some(import)) => Some(WasmModel { path, import }),
            _ => None,
        },
        _ => None,
    }
}

/// One extension declaration.
pub open spec fn sp_decl(jv: Jv) -> Option<DeclModel> {
    match jv {
        Jv::Object(ms) => {
            let name = sp_string_field(ms, "name"@);
            let description = sp_opt_string_field(ms, "description"@);
            let script = sp_opt_string_field(ms, "script"@);
            let params = match spec_lookup(ms, "params"@) {
                None => Some(None),
                Some(Jv::Null) => Some(None),
                Some(Jv::Array(es)) => match sp_params(es) {
                    Some(ps) => Some(Some(ps)),
                    None => None,
                },
                Some(_) => None,
            };
            let env = match spec_lookup(ms, "env"@) {
                None => Some(None),
                Some(Jv::Null) => Some(None),
                Some(Jv::Object(ems)) => match sp_env(ems) {
                    Some(ev) => Some(Some(ev)),
                    None => None,
                },
                Some(_) => None,
            };
            let wasm = match spec_lookup(ms, "wasm"@) {
                None => Some(None),
                Some(Jv::Null) => Some(None),
                Some(w) => match sp_wasm(w) {
                    Some(wm) => Some(Some(wm)),
                    None => None,
                },
            };
            match (name, description, script, params, env, wasm) {
                (Some(n), Some(d), Some(s), Some(p), Some(e), Some(w)) => Some(
                    DeclModel { name: n, params: p, env: e, description: d, wasm: w, script: s },
                ),
                _ => None,
            }
        },
        _ => None,
    }
}

/// A list of extension declarations.
pub open spec fn sp_decls(es: Seq<Jv>) -> Option<Seq<DeclModel>>
    decreases es.len(),
{
    if es.len() == 0 {
        Some(Seq::empty())
    } else {
        match (sp_decl(es[0]), sp_decls(es.drop_first())) {
            (Some(d), Some(tail)) => Some(seq![d] + tail),
            _ => None,
        }
    }
}

/// A whole manifest: an object with optional `functions` and `filters`
/// declaration lists.
pub open spec fn sp_plugin(jv: Jv) -> Option<PluginModel> {
    match jv {
        Jv::Object(ms) => {
            let functions = match spec_lookup(ms, "functions"@) {
                None => Some(None),
                Some(Jv::Null) => Some(None),
                Some(Jv::Array(es)) => match sp_decls(es) {
                    Some(ds) => Some(Some(ds)),
                    None => None,
                },
                Some(_) => None,
            };
            let filters = match spec_lookup(ms, "filters"@) {
                None => Some(None),
                Some(Jv::Null) => Some(None),
                Some(Jv::Array(es)) => match sp_decls(es) {
                    Some(ds) => Some(Some(ds)),
                    None => None,
                },
                Some(_) => None,
            };
            match (functions, filters) {
                (Some(fs), Some(gs)) => Some(PluginModel { functions: fs, filters: gs }),
                _ => None,
            }
        },
        _ => None,
    }
}

/// Read a required string member.
fn get_string_field(v: &Value, key: &str) -> (r: Result<String, Error>)
    ensures
        match v.deep_view() {
            Jv::Object(ms) => match sp_string_field(ms, key@) {
                Some(s) => r matches Ok(out) && out@ == s,
                None => r matches Err(Error::BadManifest),
            },
            _ => r matches Err(Error::BadManifest),
        },
{
    match v.get(key) {
        Some(f) => match f {
            Value::String(s) => Ok(s.clone()),
            _ => Err(Error::BadManifest),
        },
        None => Err(Error::BadManifest),
    }
}

/// Read an optional string member.
fn get_opt_string_field(v: &Value, key: &str) -> (r: Result<Option<String>, Error>)
    requires
        v.deep_view() is Object,
    ensures
        match sp_opt_string_field(v.deep_view()->Object_0, key@) {
            Some(os) => match r {
                Ok(out) => out.deep_view() == os,
                Err(_) => false,
            },
            None => r matches Err(Error::BadManifest),
        },
{
    match v.get(key) {
        Some(f) => match f {
            Value::String(s) => Ok(Some(s.clone())),
            Value::Null => Ok(None),
            _ => Err(Error::BadManifest),
        },
        None => Ok(None),
    }
}

/// Decode one parameter declaration.
fn parse_param(v: &Value) -> (r: Result<Param, Error>)
    ensures
        match sp_param(v.deep_view()) {
            Some(pm) => r matches Ok(p) && p.deep_view() == pm,
            None => r matches Err(Error::BadManifest),
        },
{
    match v {
        Value::Object(_) => {},
        _ => {
            return Err(Error::BadManifest);
        },
    }
    let name = match get_string_field(v, "name") {
        Ok(s) => s,
        Err(e) => {
            return Err(e);
        },
    };
    let description = match get_opt_string_field(v, "description") {
        Ok(s) => s,
        Err(e) => {
            return Err(e);
        },
    };
    let default = match get_opt_string_field(v, "default") {
        Ok(s) => s,
        Err(e) => {
            return Err(e);
        },
    };
    Ok(Param { name, description, default })
}

/// Decode a parameter list.
fn parse_params(a: &Vec<Value>) -> (r: Result<Vec<Param>, Error>)
    ensures
        match sp_params(a.deep_view()) {
            Some(pm) => match r {
                Ok(ps) => ps.deep_view() == pm,
                Err(_) => false,
            },
            None => r matches Err(Error::BadManifest),
        },
{
    let mut out: Vec<Param> = Vec::new();
    let n = a.len();
    let ghost es = a.deep_view();
    proof {
        assert(es.skip(0) =~= es);
        assert(out.deep_view() =~= Seq::<ParamModel>::empty());
    }
    for i in 0..n
        invariant
            n == a@.len(),
            es == a.deep_view(),
            es.len() == n,
            match sp_params(es.skip(i as int)) {
                Some(tail) => sp_params(es) == Some(out.deep_view() + tail),
                None => sp_params(es) is None,
            },
        {
        proof {
            assert(es.skip(i as int)[0] == es[i as int]);
            assert(es[i as int] == a@[i as int].deep_view());
            assert(es.skip(i as int).drop_first() =~= es.skip(i + 1));
        }
        match parse_param(&a[i]) {
            Ok(p) => {
                let ghost snap = out.deep_view();
                out.push(p);
                proof {
                    assert(out.deep_view() =~= snap.push(p.deep_view()));
                    match sp_params(es.skip(i + 1)) {
                        Some(tail) => {
                            assert(snap + (seq![p.deep_view()] + tail) =~= (snap.push(
                                p.deep_view(),
                            ) + tail));
                        },
                        None => {},
                    }
                }
            },
            Err(e) => {
                return Err(e);
            },
        }
    }
    proof {
        assert(es.skip(n as int) =~= Seq::<Jv>::empty());
        assert(out.deep_view() + Seq::<ParamModel>::empty() =~= out.deep_view());
    }
    Ok(out)
}

/// Decode an environment overlay.
fn parse_env(m: &Vec<(String, Value)>) -> (r: Result<Vec<(String, String)>, Error>)
    ensures
        match sp_env(m.deep_view()) {
            Some(em) => match r {
                Ok(ev) => ev.deep_view() == em,
                Err(_) => false,
            },
            None => r matches Err(Error::BadManifest),
        },
{
    let mut out: Vec<(String, String)> = Vec::new();
    let n = m.len();
    let ghost ms = m.deep_view();
    proof {
        assert(ms.skip(0) =~= ms);
        assert(out.deep_view() =~= Seq::<(Seq<char>, Seq<char>)>::empty());
    }
    for i in 0..n
        invariant
            n == m@.len(),
            ms == m.deep_view(),
            ms.len() == n,
            match sp_env(ms.skip(i as int)) {
                Some(tail) => sp_env(ms) == Some(out.deep_view() + tail),
                None => sp_env(ms) is None,
            },
        {
        proof {
            assert(ms.skip(i as int)[0] == ms[i as int]);
            assert(ms[i as int] == m@[i as int].deep_view());
            assert(ms.skip(i as int).drop_first() =~= ms.skip(i + 1));
        }
        match &m[i].1 {
            Value::String(s) => {
                let ghost snap = out.deep_view();
                out.push((m[i].0.clone(), s.clone()));
                proof {
                    assert(out.deep_view() =~= snap.push((m@[i as int].0@, s@)));
                    match sp_env(ms.skip(i + 1)) {
                        Some(tail) => {
                            assert(snap + (seq![(ms[i as int].0, ms[i as int].1->String_0)]
                                + tail) =~= (snap.push((m@[i as int].0@, s@)) + tail));
                        },
                        None => {},
                    }
                }
            },
            _ => {
                return Err(Error::BadManifest);
            },
        }
    }
    proof {
        assert(ms.skip(n as int) =~= Seq::<(Seq<char>, Jv)>::empty());
        assert(out.deep_view() + Seq::<(Seq<char>, Seq<char>)>::empty() =~= out.deep_view());
    }
    Ok(out)
}

/// Decode a wasm binding.
fn parse_wasm(v: &Value) -> (r: Result<Wasm, Error>)
    ensures
        match sp_wasm(v.deep_view()) {
            Some(wm) => r matches Ok(w) && w.deep_view() == wm,
            None => r matches Err(Error::BadManifest),
        },
{
    match v {
        Value::Object(_) => {},
        _ => {
            return Err(Error::BadManifest);
        },
    }
    let path = match get_string_field(v, "path") {
        Ok(s) => s,
        Err(e) => {
            return Err(e);
        },
    };
    let import = match get_string_field(v, "import") {
        Ok(s) => s,
        Err(e) => {
            return Err(e);
        },
    };
    Ok(Wasm { path, import })
}

/// Decode the common fields of one declaration.
fn parse_decl_parts(v: &Value) -> (r: Result<
    (String, Option<Vec<Param>>, Option<Vec<(String, String)>>, Option<String>, Option<Wasm>,
        Option<String>),
    Error,
>)
    ensures
        match sp_decl(v.deep_view()) {
            Some(dm) => match r {
                Ok(parts) => parts.0@ == dm.name && parts.1.deep_view() == dm.params
                    && parts.2.deep_view() == dm.env && parts.3.deep_view() == dm.description
                    && parts.4.deep_view() == dm.wasm && parts.5.deep_view() == dm.script,
                Err(_) => false,
            },
            None => r matches Err(Error::BadManifest),
        },
{
    match v {
        Value::Object(_) => {},
        _ => {
            return Err(Error::BadManifest);
        },
    }
    let name = match get_string_field(v, "name") {
        Ok(s) => s,
        Err(e) => {
            return Err(e);
        },
    };
    let description = match get_opt_string_field(v, "description") {
        Ok(s) => s,
        Err(e) => {
            return Err(e);
        },
    };
    let script = match get_opt_string_field(v, "script") {
        Ok(s) => s,
        Err(e) => {
            return Err(e);
        },
    };
    let params: Option<Vec<Param>> = match v.get("params") {
        Some(f) => match f {
            Value::Null => None,
            Value::Array(es) => {
                proof {
                    crate::value::lemma_jv_of_array(*es);
                }
                match parse_params(es) {
                    Ok(ps) => Some(ps),
                    Err(e) => {
                        return Err(e);
                    },
                }
            },
            _ => {
                return Err(Error::BadManifest);
            },
        },
        None => None,
    };
    let env: Option<Vec<(String, String)>> = match v.get("env") {
        Some(f) => match f {
            Value::Null => None,
            Value::Object(ems) => {
                proof {
                    crate::value::lemma_jv_of_object(*ems);
                }
                match parse_env(ems) {
                    Ok(ev) => Some(ev),
                    Err(e) => {
                        return Err(e);
                    },
                }
            },
            _ => {
                return Err(Error::BadManifest);
            },
        },
        None => None,
    };
    let wasm: Option<Wasm> = match v.get("wasm") {
        Some(f) => match f {
            Value::Null => None,
            _ => match parse_wasm(f) {
                Ok(w) => Some(w),
                Err(e) => {
                    return Err(e);
                },
            },
        },
        None => None,
    };
    Ok((name, params, env, description, wasm, script))
}

/// Decode one function declaration.
fn parse_function_decl(v: &Value) -> (r: Result<FunctionDeclaration, Error>)
    ensures
        match sp_decl(v.deep_view()) {
            Some(dm) => r matches Ok(d) && d.deep_view() == dm,
            None => r matches Err(Error::BadManifest),
        },
{
    match parse_decl_parts(v) {
        Ok((name, params, env, description, wasm, script)) => Ok(
            FunctionDeclaration { name, params, env, description, wasm, script },
        ),
        Err(e) => Err(e),
    }
}

/// Decode one filter declaration.
fn parse_filter_decl(v: &Value) -> (r: Result<FilterDeclaration, Error>)
    ensures
        match sp_decl(v.deep_view()) {
            Some(dm) => r matches Ok(d) && d.deep_view() == dm,
            None => r matches Err(Error::BadManifest),
        },
{
    match parse_decl_parts(v) {
        Ok((name, params, env, description, wasm, script)) => Ok(
            FilterDeclaration { name, params, env, description, wasm, script },
        ),
        Err(e) => Err(e),
    }
}

/// Decode a list of function declarations.
fn parse_function_decls(a: &Vec<Value>) -> (r: Result<Vec<FunctionDeclaration>, Error>)
    ensures
        match sp_decls(a.deep_view()) {
            Some(dm) => match r {
                Ok(ds) => ds.deep_view() == dm,
                Err(_) => false,
            },
            None => r matches Err(Error::BadManifest),
        },
{
    let mut out: Vec<FunctionDeclaration> = Vec::new();
    let n = a.len();
    let ghost es = a.deep_view();
    proof {
        assert(es.skip(0) =~= es);
        assert(out.deep_view() =~= Seq::<DeclModel>::empty());
    }
    for i in 0..n
        invariant
            n == a@.len(),
            es == a.deep_view(),
            es.len() == n,
            match sp_decls(es.skip(i as int)) {
                Some(tail) => sp_decls(es) == Some(out.deep_view() + tail),
                None => sp_decls(es) is None,
            },
        {
        proof {
            assert(es.skip(i as int)[0] == es[i as int]);
            assert(es[i as int] == a@[i as int].deep_view());
            assert(es.skip(i as int).drop_first() =~= es.skip(i + 1));
        }
        match parse_function_decl(&a[i]) {
            Ok(d) => {
                let ghost snap = out.deep_view();
                out.push(d);
                proof {
                    assert(out.deep_view() =~= snap.push(d.deep_view()));
                    match sp_decls(es.skip(i + 1)) {
                        Some(tail) => {
                            assert(snap + (seq![d.deep_view()] + tail) =~= (snap.push(
                                d.deep_view(),
                            ) + tail));
                        },
                        None => {},
                    }
                }
            },
            Err(e) => {
                return Err(e);
            },
        }
    }
    proof {
        assert(es.skip(n as int) =~= Seq::<Jv>::empty());
        assert(out.deep_view() + Seq::<DeclModel>::empty() =~= out.deep_view());
    }
    Ok(out)
}

/// Decode a list of filter declarations.
fn parse_filter_decls(a: &Vec<Value>) -> (r: Result<Vec<FilterDeclaration>, Error>)
    ensures
        match sp_decls(a.deep_view()) {
            Some(dm) => match r {
                Ok(ds) => ds.deep_view() == dm,
                Err(_) => false,
            },
            None => r matches Err(Error::BadManifest),
        },
{
    let mut out: Vec<FilterDeclaration> = Vec::new();
    let n = a.len();
    let ghost es = a.deep_view();
    proof {
        assert(es.skip(0) =~= es);
        assert(out.deep_view() =~= Seq::<DeclModel>::empty());
    }
    for i in 0..n
        invariant
            n == a@.len(),
            es == a.deep_view(),
            es.len() == n,
            match sp_decls(es.skip(i as int)) {
                Some(tail) => sp_decls(es) == Some(out.deep_view() + tail),
                None => sp_decls(es) is None,
            },
        {
        proof {
            assert(es.skip(i as int)[0] == es[i as int]);
            assert(es[i as int] == a@[i as int].deep_view());
            assert(es.skip(i as int).drop_first() =~= es.skip(i + 1));
        }
        match parse_filter_decl(&a[i]) {
            Ok(d) => {
                let ghost snap = out.deep_view();
                out.push(d);
                proof {
                    assert(out.deep_view() =~= snap.push(d.deep_view()));
                    match sp_decls(es.skip(i + 1)) {
                        Some(tail) => {
                            assert(snap + (seq![d.deep_view()] + tail) =~= (snap.push(
                                d.deep_view(),
                            ) + tail));
                        },
                        None => {},
                    }
                }
            },
            Err(e) => {
                return Err(e);
            },
        }
    }
    proof {
        assert(es.skip(n as int) =~= Seq::<Jv>::empty());
        assert(out.deep_view() + Seq::<DeclModel>::empty() =~= out.deep_view());
    }
    Ok(out)
}

/// Decode a manifest value into typed declarations.
pub fn plugin_from_value(v: &Value) -> (r: Result<Plugin, Error>)
    ensures
        match sp_plugin(v.deep_view()) {
            Some(pm) => r matches Ok(p) && p.deep_view() == pm,
            None => r matches Err(Error::BadManifest),
        },
{
    match v {
        Value::Object(_) => {},
        _ => {
            return Err(Error::BadManifest);
        },
    }
    let functions: Option<Vec<FunctionDeclaration>> = match v.get("functions") {
        Some(f) => match f {
            Value::Null => None,
            Value::Array(es) => {
                proof {
                    crate::value::lemma_jv_of_array(*es);
                }
                match parse_function_decls(es) {
                    Ok(ds) => Some(ds),
                    Err(e) => {
                        return Err(e);
                    },
                }
            },
            _ => {
                return Err(Error::BadManifest);
            },
        },
        None => None,
    };
    let filters: Option<Vec<FilterDeclaration>> = match v.get("filters") {
        Some(f) => match f {
            Value::Null => None,
            Value::Array(es) => {
                proof {
                    crate::value::lemma_jv_of_array(*es);
                }
                match parse_filter_decls(es) {
                    Ok(ds) => Some(ds),
                    Err(e) => {
                        return Err(e);
                    },
                }
            },
            _ => {
                return Err(Error::BadManifest);
            },
        },
        None => None,
    };
    Ok(Plugin { functions, filters })
}

/// Decode a rendered manifest text: YAML, read through the YAML parser
/// into JSON text, parsed by the crate's JSON parser, and decoded into
/// declarations.  Every failure along the way is `BadManifest`.
pub fn manifest_from_text(s: &str) -> (r: Result<Plugin, Error>)
    ensures
        match yaml_as_json(s@) {
            Some(txt) => match crate::decode::sp_json(txt) {
                Some(jv) => match sp_plugin(jv) {
                    Some(pm) => r matches Ok(p) && p.deep_view() == pm,
                    None => r matches Err(Error::BadManifest),
                },
                None => r matches Err(Error::BadManifest),
            },
            None => r matches Err(Error::BadManifest),
        },
{
    match crate::filter::yaml_json_text(s) {
        Some(txt) => match crate::codec::from_json(txt.as_str()) {
            Ok(v) => plugin_from_value(&v),
            Err(_) => Err(Error::BadManifest),
        },
        None => Err(Error::BadManifest),
    }
}

} // verus!
