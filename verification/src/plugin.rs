//! The dispatcher: declarations become executable backends, and a registry
//! binds them by name.
//!
//! A declaration must name exactly one body — a wasm binding or a script —
//! and may not use the reserved names `cmd` and `interpreter` for its
//! parameters or environment; anything else is `BadDeclaration`.
//! Registering under an existing name replaces the earlier binding, so
//! registering the same manifest twice leaves the registry unchanged.

use vstd::prelude::*;
use crate::ast::{
    clone_env,
    clone_params,
    params_seq,
    env_seq,
    FilterDeclaration,
    FunctionDeclaration,
    Param,
    ParamModel,
    Wasm,
    WasmDeclartion,
    WasmModel,
};
use crate::error::Error;
use crate::shell_plugin::ShellCommand;

verus! {

/// Model of a [`ShellCommand`].
pub struct ShellCommandModel {
    pub script: Seq<char>,
    pub params: Option<Seq<ParamModel>>,
    pub env: Option<Seq<(Seq<char>, Seq<char>)>>,
}

impl DeepView for ShellCommand {
    type V = ShellCommandModel;

    open spec fn deep_view(&self) -> ShellCommandModel {
        ShellCommandModel {
            script: self.script@,
            params: self.params.deep_view(),
            env: self.env.deep_view(),
        }
    }
}

/// Model of a [`WasmDeclartion`].
pub struct WasmDeclModel {
    pub wasm: WasmModel,
    pub params: Option<Seq<ParamModel>>,
}

impl DeepView for WasmDeclartion {
    type V = WasmDeclModel;

    open spec fn deep_view(&self) -> WasmDeclModel {
        WasmDeclModel { wasm: self.wasm.deep_view(), params: self.params.deep_view() }
    }
}

/// One of the two extension backends.
#[derive(Debug)]
pub enum Executor {
    Shell(ShellCommand),
    Wasm(WasmDeclartion),
}

/// Model of an [`Executor`].
pub enum ExecutorModel {
    Shell(ShellCommandModel),
    Wasm(WasmDeclModel),
}

impl DeepView for Executor {
    type V = ExecutorModel;

    open spec fn deep_view(&self) -> ExecutorModel {
        match self {
            Executor::Shell(c) => ExecutorModel::Shell(c.deep_view()),
            Executor::Wasm(d) => ExecutorModel::Wasm(d.deep_view()),
        }
    }
}

/// A function extension ready to register: a backend under a name.
#[derive(Debug)]
pub struct ExecutableFunction {
    pub executor: Executor,
    pub name: String,
}

/// A filter extension ready to register: a backend under a name.
#[derive(Debug)]
pub struct ExecutableFilter {
    pub executor: Executor,
    pub name: String,
}

/// Whether some parameter bears a reserved name.
pub open spec fn has_reserved_param(params: Seq<Param>) -> bool {
    exists|i: int|
        0 <= i < params.len() && (#[trigger] params[i].name@ == "cmd"@ || params[i].name@
            == "interpreter"@)
}

/// Whether some environment key is reserved.
pub open spec fn has_reserved_env(env: Seq<(String, String)>) -> bool {
    exists|i: int|
        0 <= i < env.len() && (#[trigger] env[i].0@ == "cmd"@ || env[i].0@ == "interpreter"@)
}

/// A declaration is well formed when exactly one body is given and no
/// reserved name is used.
pub open spec fn decl_ok(
    wasm: Option<Wasm>,
    script: Option<String>,
    params: Option<Vec<Param>>,
    env: Option<Vec<(String, String)>>,
) -> bool {
    &&& (wasm is Some) != (script is Some)
    &&& !has_reserved_param(params_seq(params))
    &&& !has_reserved_env(env_seq(env))
}

/// Check a parameter list for reserved names.
fn check_params(params: &Option<Vec<Param>>) -> (r: bool)
    ensures
        r == has_reserved_param(params_seq(*params)),
{
    if params.is_none() {
        proof {
            assert(params_seq(*params) =~= Seq::<Param>::empty());
            assert(!has_reserved_param(params_seq(*params)));
        }
        return false;
    }
    let ps = params.as_ref().unwrap();
    proof {
        assert(params_seq(*params) == ps@);
    }
    let cmd_key = String::from_str("cmd");
    let interp_key = String::from_str("interpreter");
    let n = ps.len();
    for i in 0..n
        invariant
            n == ps@.len(),
            params_seq(*params) == ps@,
            cmd_key@ == "cmd"@,
            interp_key@ == "interpreter"@,
            forall|j: int|
                0 <= j < i ==> !(#[trigger] ps@[j].name@ == "cmd"@ || ps@[j].name@
                    == "interpreter"@),
        {
        if ps[i].name == cmd_key || ps[i].name == interp_key {
            proof {
                assert(has_reserved_param(ps@));
            }
            return true;
        }
    }
    false
}

/// Check an environment overlay for reserved keys.
fn check_env(env: &Option<Vec<(String, String)>>) -> (r: bool)
    ensures
        r == has_reserved_env(env_seq(*env)),
{
    if env.is_none() {
        proof {
            assert(env_seq(*env) =~= Seq::<(String, String)>::empty());
            assert(!has_reserved_env(env_seq(*env)));
        }
        return false;
    }
    let ev = env.as_ref().unwrap();
    proof {
        assert(env_seq(*env) == ev@);
    }
    let cmd_key = String::from_str("cmd");
    let interp_key = String::from_str("interpreter");
    let n = ev.len();
    for i in 0..n
        invariant
            n == ev@.len(),
            env_seq(*env) == ev@,
            cmd_key@ == "cmd"@,
            interp_key@ == "interpreter"@,
            forall|j: int|
                0 <= j < i ==> !(#[trigger] ev@[j].0@ == "cmd"@ || ev@[j].0@ == "interpreter"@),
        {
        if ev[i].0 == cmd_key || ev[i].0 == interp_key {
            proof {
                assert(has_reserved_env(ev@));
            }
            return true;
        }
    }
    false
}

/// Build the backend of a well-formed declaration.
fn build_executor(
    wasm: &Option<Wasm>,
    script: &Option<String>,
    params: &Option<Vec<Param>>,
    env: &Option<Vec<(String, String)>>,
) -> (r: Result<Executor, Error>)
    ensures
        decl_ok(*wasm, *script, *params, *env) ==> match r {
            Ok(ex) => match *wasm {
                Some(w) => ex matches Executor::Wasm(d) && d.wasm.deep_view() == w.deep_view()
                    && d.params.deep_view() == params.deep_view(),
                None => ex matches Executor::Shell(c) && c.script@ == script->0@
                    && c.params.deep_view() == params.deep_view() && c.env.deep_view()
                    == env.deep_view(),
            },
            Err(_) => false,
        },
        !decl_ok(*wasm, *script, *params, *env) ==> r matches Err(Error::BadDeclaration),
{
    let exactly_one = (wasm.is_some() && script.is_none()) || (wasm.is_none()
        && script.is_some());
    if !exactly_one {
        return Err(Error::BadDeclaration);
    }
    if check_params(params) {
        return Err(Error::BadDeclaration);
    }
    if check_env(env) {
        return Err(Error::BadDeclaration);
    }
    if wasm.is_some() {
        let w = wasm.as_ref().unwrap();
        Ok(
            Executor::Wasm(
                WasmDeclartion {
                    wasm: Wasm { path: w.path.clone(), import: w.import.clone() },
                    params: clone_params(params),
                },
            ),
        )
    } else {
        let sc = script.as_ref().unwrap();
        Ok(
            Executor::Shell(
                ShellCommand {
                    script: sc.clone(),
                    params: clone_params(params),
                    env: clone_env(env),
                },
            ),
        )
    }
}

impl FunctionDeclaration {
    /// Turn this declaration into a registrable function extension.
    ///
    /// Succeeds exactly when the declaration names one body — wasm or
    /// script — and uses no reserved parameter or environment name;
    /// otherwise `BadDeclaration`.
    pub fn create(&self) -> (r: Result<ExecutableFunction, Error>)
        ensures
            decl_ok(self.wasm, self.script, self.params, self.env) ==> match r {
                Ok(f) => f.name@ == self.name@ && match self.wasm {
                    Some(w) => f.executor matches Executor::Wasm(d) && d.wasm.deep_view()
                        == w.deep_view() && d.params.deep_view() == self.params.deep_view(),
                    None => f.executor matches Executor::Shell(c) && c.script@ == self.script->0@
                        && c.params.deep_view() == self.params.deep_view() && c.env.deep_view()
                        == self.env.deep_view(),
                },
                Err(_) => false,
            },
            !decl_ok(self.wasm, self.script, self.params, self.env) ==> r matches Err(
                Error::BadDeclaration,
            ),
    {
        match build_executor(&self.wasm, &self.script, &self.params, &self.env) {
            Ok(ex) => Ok(ExecutableFunction { executor: ex, name: self.name.clone() }),
            Err(e) => Err(e),
        }
    }
}

impl FilterDeclaration {
    /// Turn this declaration into a registrable filter extension.
    ///
    /// Succeeds exactly when the declaration names one body — wasm or
    /// script — and uses no reserved parameter or environment name;
    /// otherwise `BadDeclaration`.
    pub fn create(&self) -> (r: Result<ExecutableFilter, Error>)
        ensures
            decl_ok(self.wasm, self.script, self.params, self.env) ==> match r {
                Ok(f) => f.name@ == self.name@ && match self.wasm {
                    Some(w) => f.executor matches Executor::Wasm(d) && d.wasm.deep_view()
                        == w.deep_view() && d.params.deep_view() == self.params.deep_view(),
                    None => f.executor matches Executor::Shell(c) && c.script@ == self.script->0@
                        && c.params.deep_view() == self.params.deep_view() && c.env.deep_view()
                        == self.env.deep_view(),
                },
                Err(_) => false,
            },
            !decl_ok(self.wasm, self.script, self.params, self.env) ==> r matches Err(
                Error::BadDeclaration,
            ),
    {
        match build_executor(&self.wasm, &self.script, &self.params, &self.env) {
            Ok(ex) => Ok(ExecutableFilter { executor: ex, name: self.name.clone() }),
            Err(e) => Err(e),
        }
    }
}

/// The declarations of a manifest.
#[derive(Debug)]
pub struct Plugin {
    pub functions: Option<Vec<FunctionDeclaration>>,
    pub filters: Option<Vec<FilterDeclaration>>,
}


/// The executor a well-formed declaration describes.
pub open spec fn decl_executor_model(
    wasm: Option<Wasm>,
    script: Option<String>,
    params: Option<Vec<Param>>,
    env: Option<Vec<(String, String)>>,
) -> ExecutorModel {
    match wasm {
        Some(w) => ExecutorModel::Wasm(
            WasmDeclModel { wasm: w.deep_view(), params: params.deep_view() },
        ),
        None => ExecutorModel::Shell(
            ShellCommandModel {
                script: script->0@,
                params: params.deep_view(),
                env: env.deep_view(),
            },
        ),
    }
}

/// The bindings of a list of registered extensions, later entries winning.
pub open spec fn fn_map(v: Seq<ExecutableFunction>) -> Map<Seq<char>, ExecutorModel>
    decreases v.len(),
{
    if v.len() == 0 {
        Map::empty()
    } else {
        fn_map(v.drop_last()).insert(v.last().name@, v.last().executor.deep_view())
    }
}

/// The bindings of a list of registered filters, later entries winning.
pub open spec fn filter_map(v: Seq<ExecutableFilter>) -> Map<Seq<char>, ExecutorModel>
    decreases v.len(),
{
    if v.len() == 0 {
        Map::empty()
    } else {
        filter_map(v.drop_last()).insert(v.last().name@, v.last().executor.deep_view())
    }
}

/// Fold a list of name/executor entries into a binding map.
pub open spec fn reg_entries(
    m: Map<Seq<char>, ExecutorModel>,
    entries: Seq<(Seq<char>, ExecutorModel)>,
) -> Map<Seq<char>, ExecutorModel>
    decreases entries.len(),
{
    if entries.len() == 0 {
        m
    } else {
        reg_entries(m.insert(entries[0].0, entries[0].1), entries.drop_first())
    }
}

/// Whether `k` is among the entry names.
pub open spec fn has_name(entries: Seq<(Seq<char>, ExecutorModel)>, k: Seq<char>) -> bool {
    exists|i: int| 0 <= i < entries.len() && #[trigger] entries[i].0 == k
}

/// Folding the same entries over two maps that agree outside the entry
/// names yields the same map.
proof fn lemma_reg_entries_agree(
    m1: Map<Seq<char>, ExecutorModel>,
    m2: Map<Seq<char>, ExecutorModel>,
    entries: Seq<(Seq<char>, ExecutorModel)>,
)
    requires
        forall|k: Seq<char>|
            !has_name(entries, k) ==> ((#[trigger] m1.dom().contains(k)) <==> m2.dom().contains(
                k,
            )) && (m1.dom().contains(k) ==> m1[k] == m2[k]),
    ensures
        reg_entries(m1, entries) == reg_entries(m2, entries),
    decreases entries.len(),
{
    if entries.len() == 0 {
        assert(m1 =~= m2);
    } else {
        let e0 = entries[0];
        let tl = entries.drop_first();
        let n1 = m1.insert(e0.0, e0.1);
        let n2 = m2.insert(e0.0, e0.1);
        assert forall|k: Seq<char>|
            !has_name(tl, k) implies ((#[trigger] n1.dom().contains(k)) <==> n2.dom().contains(
                k,
            )) && (n1.dom().contains(k) ==> n1[k] == n2[k]) by {
            if k == e0.0 {
            } else {
                assert(!has_name(entries, k)) by {
                    if has_name(entries, k) {
                        let i = choose|i: int|
                            0 <= i < entries.len() && #[trigger] entries[i].0 == k;
                        assert(i != 0);
                        assert(tl[i - 1].0 == k);
                    }
                }
            }
        }
        lemma_reg_entries_agree(n1, n2, tl);
    }
}

/// Folding entries touches only the entry names.
proof fn lemma_reg_entries_frame(
    m: Map<Seq<char>, ExecutorModel>,
    entries: Seq<(Seq<char>, ExecutorModel)>,
)
    ensures
        forall|k: Seq<char>|
            !has_name(entries, k) ==> ((#[trigger] reg_entries(m, entries).dom().contains(k))
                <==> m.dom().contains(k)) && (m.dom().contains(k) ==> reg_entries(m, entries)[k]
                == m[k]),
    decreases entries.len(),
{
    if entries.len() > 0 {
        let e0 = entries[0];
        let tl = entries.drop_first();
        let n = m.insert(e0.0, e0.1);
        lemma_reg_entries_frame(n, tl);
        assert forall|k: Seq<char>|
            !has_name(entries, k) implies ((#[trigger] reg_entries(m, entries).dom().contains(
            k,
        )) <==> m.dom().contains(k)) && (m.dom().contains(k) ==> reg_entries(m, entries)[k]
            == m[k]) by {
            assert(k != e0.0) by {
                if k == e0.0 {
                    assert(entries[0].0 == k);
                }
            }
            assert(!has_name(tl, k)) by {
                if has_name(tl, k) {
                    let i = choose|i: int| 0 <= i < tl.len() && #[trigger] tl[i].0 == k;
                    assert(entries[i + 1].0 == k);
                }
            }
            assert((reg_entries(n, tl).dom().contains(k) <==> n.dom().contains(k)) && (
            n.dom().contains(k) ==> reg_entries(n, tl)[k] == n[k]));
            assert(reg_entries(m, entries) == reg_entries(n, tl));
        }
    }
}

/// Idempotence: registering the entries of a manifest a second time leaves
/// the bindings exactly as after the first registration.
pub proof fn lemma_register_idempotent(
    m: Map<Seq<char>, ExecutorModel>,
    entries: Seq<(Seq<char>, ExecutorModel)>,
)
    ensures
        reg_entries(reg_entries(m, entries), entries) == reg_entries(m, entries),
{
    lemma_reg_entries_frame(m, entries);
    lemma_reg_entries_agree(reg_entries(m, entries), m, entries);
}

/// Extensions registered by name: later registrations replace earlier ones
/// of the same name.
#[derive(Debug)]
pub struct Registry {
    pub functions: Vec<ExecutableFunction>,
    pub filters: Vec<ExecutableFilter>,
}

impl Registry {
    /// An empty registry.
    pub fn new() -> (r: Registry)
        ensures
            fn_map(r.functions@) == Map::<Seq<char>, ExecutorModel>::empty(),
            filter_map(r.filters@) == Map::<Seq<char>, ExecutorModel>::empty(),
    {
        Registry { functions: Vec::new(), filters: Vec::new() }
    }

    /// Bind a function extension under its name.
    pub fn register_function(&mut self, f: ExecutableFunction)
        ensures
            fn_map(final(self).functions@) == fn_map(old(self).functions@).insert(
                f.name@,
                f.executor.deep_view(),
            ),
            final(self).filters@ == old(self).filters@,
    {
        let ghost name = f.name@;
        let ghost model = f.executor.deep_view();
        self.functions.push(f);
        proof {
            assert(self.functions@.drop_last() =~= old(self).functions@);
        }
    }

    /// Bind a filter extension under its name.
    pub fn register_filter(&mut self, f: ExecutableFilter)
        ensures
            filter_map(final(self).filters@) == filter_map(old(self).filters@).insert(
                f.name@,
                f.executor.deep_view(),
            ),
            final(self).functions@ == old(self).functions@,
    {
        self.filters.push(f);
        proof {
            assert(self.filters@.drop_last() =~= old(self).filters@);
        }
    }
}

/// Whether every declaration in the list is well formed.
pub open spec fn fn_decls_ok(ds: Seq<FunctionDeclaration>) -> bool {
    forall|i: int|
        0 <= i < ds.len() ==> decl_ok(
            (#[trigger] ds[i]).wasm,
            ds[i].script,
            ds[i].params,
            ds[i].env,
        )
}

/// Whether every filter declaration in the list is well formed.
pub open spec fn filter_decls_ok(ds: Seq<FilterDeclaration>) -> bool {
    forall|i: int|
        0 <= i < ds.len() ==> decl_ok(
            (#[trigger] ds[i]).wasm,
            ds[i].script,
            ds[i].params,
            ds[i].env,
        )
}

/// The name/executor entries a list of function declarations registers.
pub open spec fn fn_decl_entries(ds: Seq<FunctionDeclaration>) -> Seq<(Seq<char>, ExecutorModel)> {
    Seq::new(ds.len(), |i: int| (ds[i].name@, decl_executor_model(
        ds[i].wasm,
        ds[i].script,
        ds[i].params,
        ds[i].env,
    )))
}

/// The name/executor entries a list of filter declarations registers.
pub open spec fn filter_decl_entries(ds: Seq<FilterDeclaration>) -> Seq<
    (Seq<char>, ExecutorModel),
> {
    Seq::new(ds.len(), |i: int| (ds[i].name@, decl_executor_model(
        ds[i].wasm,
        ds[i].script,
        ds[i].params,
        ds[i].env,
    )))
}

/// The function declarations of a manifest, empty when absent.
pub open spec fn fn_decls_seq(o: Option<Vec<FunctionDeclaration>>) -> Seq<FunctionDeclaration> {
    match o {
        Some(v) => v@,
        None => Seq::empty(),
    }
}

/// The filter declarations of a manifest, empty when absent.
pub open spec fn filter_decls_seq(o: Option<Vec<FilterDeclaration>>) -> Seq<FilterDeclaration> {
    match o {
        Some(v) => v@,
        None => Seq::empty(),
    }
}

impl Registry {
    /// Build and register every extension a manifest declares, functions
    /// first, aborting on the first bad declaration.
    pub fn register_plugin(&mut self, plugin: &Plugin) -> (r: Result<(), Error>)
        ensures
            fn_decls_ok(fn_decls_seq(plugin.functions)) && filter_decls_ok(
                filter_decls_seq(plugin.filters),
            ) ==> r is Ok && fn_map(final(self).functions@) == reg_entries(
                fn_map(old(self).functions@),
                fn_decl_entries(fn_decls_seq(plugin.functions)),
            ) && filter_map(final(self).filters@) == reg_entries(
                filter_map(old(self).filters@),
                filter_decl_entries(filter_decls_seq(plugin.filters)),
            ),
            r is Err ==> r matches Err(Error::BadDeclaration),
    {
        let ghost m0 = fn_map(self.functions@);
        let ghost g0 = filter_map(self.filters@);
        if plugin.functions.is_some() {
            let ds = plugin.functions.as_ref().unwrap();
            proof {
                assert(fn_decls_seq(plugin.functions) == ds@);
                assert(fn_decl_entries(ds@.skip(0)) =~= fn_decl_entries(ds@));
            }
            let n = ds.len();
            for i in 0..n
                invariant
                    n == ds@.len(),
                    fn_decls_seq(plugin.functions) == ds@,
                    m0 == fn_map(old(self).functions@),
                    g0 == filter_map(old(self).filters@),
                    reg_entries(fn_map(self.functions@), fn_decl_entries(ds@.skip(i as int)))
                        == reg_entries(m0, fn_decl_entries(ds@)),
                    self.filters@ == old(self).filters@,
                {
                match ds[i].create() {
                    Ok(f) => {
                        proof {
                            let e = fn_decl_entries(ds@.skip(i as int));
                            assert(e[0] == (ds@[i as int].name@, decl_executor_model(
                                ds@[i as int].wasm,
                                ds@[i as int].script,
                                ds@[i as int].params,
                                ds@[i as int].env,
                            )));
                            assert(f.executor.deep_view() == e[0].1);
                            assert(e.drop_first() =~= fn_decl_entries(ds@.skip(i + 1)));
                        }
                        self.register_function(f);
                    },
                    Err(_) => {
                        proof {
                            assert(!decl_ok(
                                ds@[i as int].wasm,
                                ds@[i as int].script,
                                ds@[i as int].params,
                                ds@[i as int].env,
                            ));
                            assert(!fn_decls_ok(fn_decls_seq(plugin.functions)));
                        }
                        return Err(Error::BadDeclaration);
                    },
                }
            }
            proof {
                assert(fn_decl_entries(ds@.skip(n as int)) =~= Seq::<
                    (Seq<char>, ExecutorModel),
                >::empty());
            }
        } else {
            proof {
                assert(fn_decl_entries(fn_decls_seq(plugin.functions)) =~= Seq::<
                    (Seq<char>, ExecutorModel),
                >::empty());
            }
        }
        let ghost funs_done = self.functions@;
        proof {
            assert(fn_map(funs_done) == reg_entries(
                m0,
                fn_decl_entries(fn_decls_seq(plugin.functions)),
            ));
        }
        if plugin.filters.is_some() {
            let ds = plugin.filters.as_ref().unwrap();
            proof {
                assert(filter_decls_seq(plugin.filters) == ds@);
                assert(filter_decl_entries(ds@.skip(0)) =~= filter_decl_entries(ds@));
            }
            let n = ds.len();
            for i in 0..n
                invariant
                    n == ds@.len(),
                    filter_decls_seq(plugin.filters) == ds@,
                    m0 == fn_map(old(self).functions@),
                    g0 == filter_map(old(self).filters@),
                    self.functions@ == funs_done,
                    fn_map(funs_done) == reg_entries(
                        m0,
                        fn_decl_entries(fn_decls_seq(plugin.functions)),
                    ),
                    reg_entries(
                        filter_map(self.filters@),
                        filter_decl_entries(ds@.skip(i as int)),
                    ) == reg_entries(g0, filter_decl_entries(ds@)),
                {
                match ds[i].create() {
                    Ok(f) => {
                        proof {
                            let e = filter_decl_entries(ds@.skip(i as int));
                            assert(e[0] == (ds@[i as int].name@, decl_executor_model(
                                ds@[i as int].wasm,
                                ds@[i as int].script,
                                ds@[i as int].params,
                                ds@[i as int].env,
                            )));
                            assert(f.executor.deep_view() == e[0].1);
                            assert(e.drop_first() =~= filter_decl_entries(ds@.skip(i + 1)));
                        }
                        self.register_filter(f);
                    },
                    Err(_) => {
                        proof {
                            assert(!decl_ok(
                                ds@[i as int].wasm,
                                ds@[i as int].script,
                                ds@[i as int].params,
                                ds@[i as int].env,
                            ));
                            assert(!filter_decls_ok(filter_decls_seq(plugin.filters)));
                        }
                        return Err(Error::BadDeclaration);
                    },
                }
            }
            proof {
                assert(filter_decl_entries(ds@.skip(n as int)) =~= Seq::<
                    (Seq<char>, ExecutorModel),
                >::empty());
            }
        } else {
            proof {
                assert(filter_decl_entries(filter_decls_seq(plugin.filters)) =~= Seq::<
                    (Seq<char>, ExecutorModel),
                >::empty());
            }
        }
        Ok(())
    }
}


impl Registry {
    /// The function registered under `name`, the most recent registration
    /// winning.
    pub fn find_function<'a>(&'a self, name: &String) -> (r: Option<&'a ExecutableFunction>)
        ensures
            fn_map(self.functions@).dom().contains(name@) ==> r is Some && r->0.name@ == name@
                && fn_map(self.functions@)[name@] == r->0.executor.deep_view(),
            !fn_map(self.functions@).dom().contains(name@) ==> r is None,
    {
        let v = &self.functions;
        let mut i = v.len();
        proof {
            assert(v@.take(v@.len() as int) =~= v@);
        }
        while i > 0
            invariant
                i <= v@.len(),
                v == &self.functions,
                fn_map(v@).dom().contains(name@) == fn_map(v@.take(i as int)).dom().contains(
                    name@,
                ),
                fn_map(v@).dom().contains(name@) ==> fn_map(v@)[name@] == fn_map(
                    v@.take(i as int),
                )[name@],
            decreases i,
        {
            i = i - 1;
            proof {
                assert(v@.take(i + 1).drop_last() =~= v@.take(i as int));
                assert(v@.take(i + 1).last() == v@[i as int]);
            }
            if v[i].name == *name {
                return Some(&v[i]);
            }
        }
        proof {
            assert(v@.take(0) =~= Seq::<ExecutableFunction>::empty());
        }
        None
    }

    /// The filter registered under `name`, the most recent registration
    /// winning.
    pub fn find_filter<'a>(&'a self, name: &String) -> (r: Option<&'a ExecutableFilter>)
        ensures
            filter_map(self.filters@).dom().contains(name@) ==> r is Some && r->0.name@ == name@
                && filter_map(self.filters@)[name@] == r->0.executor.deep_view(),
            !filter_map(self.filters@).dom().contains(name@) ==> r is None,
    {
        let v = &self.filters;
        let mut i = v.len();
        proof {
            assert(v@.take(v@.len() as int) =~= v@);
        }
        while i > 0
            invariant
                i <= v@.len(),
                v == &self.filters,
                filter_map(v@).dom().contains(name@) == filter_map(
                    v@.take(i as int),
                ).dom().contains(name@),
                filter_map(v@).dom().contains(name@) ==> filter_map(v@)[name@] == filter_map(
                    v@.take(i as int),
                )[name@],
            decreases i,
        {
            i = i - 1;
            proof {
                assert(v@.take(i + 1).drop_last() =~= v@.take(i as int));
                assert(v@.take(i + 1).last() == v@[i as int]);
            }
            if v[i].name == *name {
                return Some(&v[i]);
            }
        }
        proof {
            assert(v@.take(0) =~= Seq::<ExecutableFilter>::empty());
        }
        None
    }
}

} // verus!
