//! Declarations read from a plugin manifest.
//!
//! A manifest declares extensions — functions and filters — whose bodies
//! are either a shell script or an exported wasm function.  Environment
//! maps are association lists in declaration order.

use vstd::prelude::*;

verus! {

/// One declared parameter of an extension.
#[derive(Debug, Clone)]
pub struct Param {
    pub name: String,
    pub description: Option<String>,
    pub default: Option<String>,
}

/// A wasm binding: module path and exported entry point.
#[derive(Debug, Clone)]
pub struct Wasm {
    pub path: String,
    pub import: String,
}

/// A declared template function.
#[derive(Debug)]
pub struct FunctionDeclaration {
    pub name: String,
    pub params: Option<Vec<Param>>,
    pub env: Option<Vec<(String, String)>>,
    pub description: Option<String>,
    pub wasm: Option<Wasm>,
    pub script: Option<String>,
}

/// A declared template filter.
#[derive(Debug)]
pub struct FilterDeclaration {
    pub name: String,
    pub params: Option<Vec<Param>>,
    pub env: Option<Vec<(String, String)>>,
    pub description: Option<String>,
    pub wasm: Option<Wasm>,
    pub script: Option<String>,
}

/// The wasm binding of an extension together with its declared parameters.
#[derive(Debug)]
pub struct WasmDeclartion {
    pub wasm: Wasm,
    pub params: Option<Vec<Param>>,
}

/// A wasm-backed function body.
#[derive(Debug)]
pub struct WasmFunction {
    pub decl: WasmDeclartion,
}

/// A wasm-backed filter body.
#[derive(Debug)]
pub struct WasmFilter {
    pub decl: WasmDeclartion,
}

/// Model of a [`Param`]: its texts.
pub struct ParamModel {
    pub name: Seq<char>,
    pub description: Option<Seq<char>>,
    pub default: Option<Seq<char>>,
}

impl DeepView for Param {
    type V = ParamModel;

    open spec fn deep_view(&self) -> ParamModel {
        ParamModel {
            name: self.name@,
            description: self.description.deep_view(),
            default: self.default.deep_view(),
        }
    }
}

/// Model of a [`Wasm`] binding: its texts.
pub struct WasmModel {
    pub path: Seq<char>,
    pub import: Seq<char>,
}

impl DeepView for Wasm {
    type V = WasmModel;

    open spec fn deep_view(&self) -> WasmModel {
        WasmModel { path: self.path@, import: self.import@ }
    }
}

/// Copy one parameter.
pub fn clone_param(p: &Param) -> (r: Param)
    ensures
        r.deep_view() == p.deep_view(),
{
    Param {
        name: p.name.clone(),
        description: match &p.description {
            Some(d) => Some(d.clone()),
            None => None,
        },
        default: match &p.default {
            Some(d) => Some(d.clone()),
            None => None,
        },
    }
}

/// Copy an optional parameter list.
pub fn clone_params(ps: &Option<Vec<Param>>) -> (r: Option<Vec<Param>>)
    ensures
        r.deep_view() == ps.deep_view(),
{
    if ps.is_none() {
        return None;
    }
    let v = ps.as_ref().unwrap();
    let mut out: Vec<Param> = Vec::new();
    let n = v.len();
    proof {
        assert(out.deep_view() =~= v.deep_view().take(0));
    }
    for i in 0..n
        invariant
            n == v@.len(),
            out.deep_view() == v.deep_view().take(i as int),
            out@.len() == i,
        {
        let ghost snap = out.deep_view();
        out.push(clone_param(&v[i]));
        proof {
            assert(out.deep_view() =~= snap.push(v@[i as int].deep_view()));
            assert(v.deep_view()[i as int] == v@[i as int].deep_view());
            assert(v.deep_view().take(i + 1) =~= v.deep_view().take(i as int).push(
                v.deep_view()[i as int],
            ));
        }
    }
    proof {
        assert(v.deep_view().take(n as int) =~= v.deep_view());
    }
    Some(out)
}

/// Copy an optional environment overlay.
pub fn clone_env(env: &Option<Vec<(String, String)>>) -> (r: Option<Vec<(String, String)>>)
    ensures
        r.deep_view() == env.deep_view(),
{
    if env.is_none() {
        return None;
    }
    let v = env.as_ref().unwrap();
    let mut out: Vec<(String, String)> = Vec::new();
    let n = v.len();
    proof {
        assert(out.deep_view() =~= v.deep_view().take(0));
    }
    for i in 0..n
        invariant
            n == v@.len(),
            out.deep_view() == v.deep_view().take(i as int),
            out@.len() == i,
        {
        let ghost snap = out.deep_view();
        out.push((v[i].0.clone(), v[i].1.clone()));
        proof {
            assert(out.deep_view() =~= snap.push(v@[i as int].deep_view()));
            assert(v.deep_view()[i as int] == v@[i as int].deep_view());
            assert(v.deep_view().take(i + 1) =~= v.deep_view().take(i as int).push(
                v.deep_view()[i as int],
            ));
        }
    }
    proof {
        assert(v.deep_view().take(n as int) =~= v.deep_view());
    }
    Some(out)
}

/// The parameter list of a declaration, empty when absent.
pub open spec fn params_seq(params: Option<Vec<Param>>) -> Seq<Param> {
    match params {
        Some(v) => v@,
        None => Seq::empty(),
    }
}

/// The environment overlay of a declaration, empty when absent.
pub open spec fn env_seq(env: Option<Vec<(String, String)>>) -> Seq<(String, String)> {
    match env {
        Some(v) => v@,
        None => Seq::empty(),
    }
}

} // verus!
