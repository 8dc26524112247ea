//! The whole compilation pass over one blueprint: build the constructor
//! registry, number the routes, resolve every handler, collect the
//! singletons that handlers actually use, build and scope-check the
//! application-state graph, name its bindings, re-resolve each handler
//! against the pre-built singletons, and synthesize the dispatch table.
//!
//! A failure is fatal only for the target it arises in: every handler is
//! resolved and every failure reported, and an application is produced only
//! when the entire blueprint resolves cleanly.

use vstd::prelude::*;
use vstd::pervasive::VecAdditionalExecFns;
use crate::registry::{BlueprintError, Callable, CtorModel, Registry, Scope, TypeInfo};
use crate::model::{
    ModelErr, ResolveState, lemma_resolve_list_order_registered, order_registered, registered,
    resolve_targets_m,
};
use crate::resolve::{CallGraph, ResolutionError, clone_ids, err_model, pre_set, resolve_graph};
use crate::scope::{ScopeError, check_scopes, effective_scope, scopes_ok};
use crate::bindings::{BindingName, assign_bindings, binding_ok};
use crate::router::{Route, RouteTable, assign_ids};
use crate::dispatch::{DispatchTable, entry_ok, synthesize};

verus! {

/// One constructor declaration of a blueprint.
pub struct Registration {
    pub ty: usize,
    pub callable: Callable,
    pub scope: Scope,
}

/// The declarative input of a compilation: the type table, the constructor
/// declarations, the routes, and the types the runtime hands every handler
/// (the incoming request, most of all).
pub struct Blueprint {
    pub types: Vec<TypeInfo>,
    pub constructors: Vec<Registration>,
    pub routes: Vec<Route>,
    pub framework_inputs: Vec<usize>,
}

/// One failure of the pass, tied to the target it arose in.
#[derive(Debug)]
pub enum BuildFailure {
    /// The blueprint itself is ill-formed.
    Blueprint { error: BlueprintError },
    /// Resolution of the handler of this route failed.
    Handler { route: usize, error: ResolutionError },
    /// Resolution of the application state failed.
    AppState { error: ResolutionError },
    /// A singleton depends on per-request state.
    Scope { error: ScopeError },
}

/// Everything the pass produces for the code-emission backend.
pub struct Application {
    /// The routes, in declaration order; route id `i` is route `i`.
    pub routes: Vec<Route>,
    /// The graph building every used singleton once at process start.
    pub state_graph: CallGraph,
    /// The binding name of each singleton of `state_graph.order`.
    pub state_bindings: Vec<BindingName>,
    /// One call graph per route, borrowing singletons as external inputs.
    pub handler_graphs: Vec<CallGraph>,
    /// The bidirectional route id / path mapping.
    pub route_table: RouteTable,
    /// The per-request control-flow table.
    pub dispatch_table: DispatchTable,
}

/// The registry model after the first `upto` declarations: the first
/// registration of a type wins.
pub open spec fn reg_model_after(n: nat, regs: Seq<Registration>, upto: int) -> Seq<
    Option<CtorModel>,
>
    decreases upto,
{
    if upto <= 0 {
        Seq::new(n, |i: int| Option::<CtorModel>::None)
    } else {
        let prev = reg_model_after(n, regs, upto - 1);
        let rg = regs[upto - 1];
        if prev[rg.ty as int] is Some {
            prev
        } else {
            prev.update(
                rg.ty as int,
                Some(
                    CtorModel {
                        inputs: rg.callable.inputs@,
                        output: rg.callable.output,
                        scope: rg.scope,
                    },
                ),
            )
        }
    }
}

/// Whether some declaration among the first `upto` hits a type already
/// registered.
pub open spec fn has_dup_ctor(n: nat, regs: Seq<Registration>, upto: int) -> bool
    decreases upto,
{
    if upto <= 0 {
        false
    } else {
        has_dup_ctor(n, regs, upto - 1) || reg_model_after(n, regs, upto - 1)[regs[upto
            - 1].ty as int] is Some
    }
}

/// A duplicate in a prefix is a duplicate in the whole.
pub proof fn lemma_dup_mono(n: nat, regs: Seq<Registration>, a: int, b: int)
    requires
        a <= b,
        has_dup_ctor(n, regs, a),
    ensures
        has_dup_ctor(n, regs, b),
    decreases b,
{
    if b > a {
        lemma_dup_mono(n, regs, a, b - 1);
    }
}

/// The set holding the first `upto` ids of a sequence.
pub open spec fn id_set(s: Seq<usize>, upto: int) -> Set<usize>
    decreases upto,
{
    if upto <= 0 {
        Set::empty()
    } else {
        id_set(s, upto - 1).insert(s[upto - 1])
    }
}

/// The whole registry model of a blueprint.
pub open spec fn bp_reg_model(bp: Blueprint) -> Seq<Option<CtorModel>> {
    reg_model_after(bp.types@.len(), bp.constructors@, bp.constructors@.len() as int)
}

/// The set of framework-supplied types of a blueprint.
pub open spec fn bp_fw_set(bp: Blueprint) -> Set<usize> {
    id_set(bp.framework_inputs@, bp.framework_inputs@.len() as int)
}

/// The outcome of the first resolution of handler `h`, before singletons are
/// pre-built: only framework inputs are external.
pub open spec fn prelim_outcome(bp: Blueprint, h: int) -> (ResolveState, Option<ModelErr>) {
    resolve_targets_m(bp_reg_model(bp), bp_fw_set(bp), bp.routes@[h].handler.inputs@)
}

/// The singletons of the first `upto` entries of a graph order.
pub open spec fn singletons_prefix(
    reg: Seq<Option<CtorModel>>,
    order: Seq<usize>,
    upto: int,
) -> Seq<usize>
    decreases upto,
{
    if upto <= 0 {
        Seq::empty()
    } else {
        singletons_prefix(reg, order, upto - 1) + if effective_scope(reg, order[upto - 1])
            == Scope::Singleton {
            seq![order[upto - 1]]
        } else {
            Seq::empty()
        }
    }
}

/// Every singleton the first `upto` handlers construct, in discovery order,
/// repetitions kept; a handler that fails to resolve contributes nothing.
pub open spec fn singleton_stream(bp: Blueprint, upto: int) -> Seq<usize>
    decreases upto,
{
    if upto <= 0 {
        Seq::empty()
    } else {
        singleton_stream(bp, upto - 1) + {
            let (st, e) = prelim_outcome(bp, upto - 1);
            if e is None {
                singletons_prefix(bp_reg_model(bp), st.order, st.order.len() as int)
            } else {
                Seq::empty()
            }
        }
    }
}

/// The first `upto` elements of a sequence with repetitions dropped.
pub open spec fn dedup_prefix(s: Seq<usize>, upto: int) -> Seq<usize>
    decreases upto,
{
    if upto <= 0 {
        Seq::empty()
    } else {
        let p = dedup_prefix(s, upto - 1);
        if p.contains(s[upto - 1]) {
            p
        } else {
            p.push(s[upto - 1])
        }
    }
}

/// The roots of the application-state graph: every singleton some handler
/// uses, first discovery first, each once. Unused singletons are pruned.
pub open spec fn bp_singleton_roots(bp: Blueprint) -> Seq<usize> {
    let stream = singleton_stream(bp, bp.routes@.len() as int);
    dedup_prefix(stream, stream.len() as int)
}

/// The outcome of resolving the application state: every used singleton from
/// an empty external set.
pub open spec fn state_outcome(bp: Blueprint) -> (ResolveState, Option<ModelErr>) {
    resolve_targets_m(bp_reg_model(bp), Set::empty(), bp_singleton_roots(bp))
}

/// The external set of a handler's final resolution: framework inputs plus
/// every singleton the state graph builds.
pub open spec fn bp_handler_pre(bp: Blueprint) -> Set<usize> {
    bp_fw_set(bp).union(id_set(state_outcome(bp).0.order, state_outcome(bp).0.order.len() as int))
}

/// The outcome of the final resolution of handler `h`.
pub open spec fn final_outcome(bp: Blueprint, h: int) -> (ResolveState, Option<ModelErr>) {
    resolve_targets_m(bp_reg_model(bp), bp_handler_pre(bp), bp.routes@[h].handler.inputs@)
}

/// When the pass produces an application: no duplicate constructor, no
/// duplicate route, every handler resolves both times, the state graph
/// resolves, and no singleton leans on per-request state.
pub open spec fn blueprint_ok(bp: Blueprint) -> bool {
    &&& !has_dup_ctor(bp.types@.len(), bp.constructors@, bp.constructors@.len() as int)
    &&& forall|i: int, j: int|
        0 <= i < j < bp.routes@.len() ==> bp.routes@[i].path@ != bp.routes@[j].path@
    &&& forall|h: int| 0 <= h < bp.routes@.len() ==> (#[trigger] prelim_outcome(bp, h)).1 is None
    &&& state_outcome(bp).1 is None
    &&& scopes_ok(bp_reg_model(bp), state_outcome(bp).0.order)
    &&& forall|h: int| 0 <= h < bp.routes@.len() ==> (#[trigger] final_outcome(bp, h)).1 is None
}

/// Everything the pass pins about a produced application: each part is a
/// function of the blueprint alone.
pub open spec fn application_matches(bp: Blueprint, app: Application) -> bool {
    &&& app.routes@ == bp.routes@
    &&& app.route_table.wf_for(bp.routes@.map(|i: int, rt: Route| rt.path@))
    &&& app.state_graph.targets@ == bp_singleton_roots(bp)
    &&& app.state_graph.order@ == state_outcome(bp).0.order
    &&& app.state_graph.ext_inputs@ == state_outcome(bp).0.ext
    &&& app.state_bindings@.len() == app.state_graph.order@.len()
    &&& forall|i: int|
        0 <= i < app.state_graph.order@.len() ==> binding_ok(
            bp.types@.map(|k: int, t: TypeInfo| t.name@),
            app.state_graph.order@,
            i,
            #[trigger] app.state_bindings@[i],
        )
    &&& app.handler_graphs@.len() == bp.routes@.len()
    &&& forall|h: int|
        0 <= h < bp.routes@.len() ==> (#[trigger] app.handler_graphs@[h]).targets@
            == bp.routes@[h].handler.inputs@ && app.handler_graphs@[h].order@
            == final_outcome(bp, h).0.order && app.handler_graphs@[h].ext_inputs@
            == final_outcome(bp, h).0.ext
    &&& app.dispatch_table.entries@.len() == bp.routes@.len()
    &&& forall|i: int|
        0 <= i < bp.routes@.len() ==> entry_ok(
            app.state_bindings@,
            bp.routes@,
            i,
            #[trigger] app.dispatch_table.entries@[i],
        )
}

/// A reported failure is a true failure of the target it names.
pub open spec fn failure_ok(bp: Blueprint, f: BuildFailure) -> bool {
    match f {
        BuildFailure::Blueprint { error } => match error {
            BlueprintError::DuplicateConstructor { ty } => has_dup_ctor(
                bp.types@.len(),
                bp.constructors@,
                bp.constructors@.len() as int,
            ),
            BlueprintError::DuplicateRoute { path } => exists|i: int, j: int|
                0 <= i < j < bp.routes@.len() && bp.routes@[i].path@ == bp.routes@[j].path@
                    && path@ == bp.routes@[j].path@,
        },
        BuildFailure::Handler { route, error } => {
            &&& route < bp.routes@.len()
            &&& (prelim_outcome(bp, route as int).1 == Some(err_model(error)) || final_outcome(
                bp,
                route as int,
            ).1 == Some(err_model(error)))
        },
        BuildFailure::AppState { error } => state_outcome(bp).1 == Some(err_model(error)),
        BuildFailure::Scope { error } => {
            &&& error matches ScopeError::ScopeViolation { ty, dependency }
            &&& crate::scope::violating_edge(bp_reg_model(bp), ty, dependency)
            &&& state_outcome(bp).0.order.contains(ty)
        },
    }
}

fn clone_callable(c: &Callable) -> (r: Callable)
    ensures
        r.path@ == c.path@,
        r.origin == c.origin,
        r.inputs@ == c.inputs@,
        r.output == c.output,
{
    Callable {
        path: c.path.clone(),
        origin: c.origin,
        inputs: clone_ids(&c.inputs),
        output: c.output,
    }
}

fn make_flags(n: usize) -> (r: Vec<bool>)
    ensures
        r@.len() == n,
        forall|t: int| 0 <= t < n ==> !r@[t],
{
    let mut r: Vec<bool> = Vec::new();
    let mut i: usize = 0;
    while i < n
        invariant
            i <= n,
            r@.len() == i,
            forall|t: int| 0 <= t < i ==> !r@[t],
        decreases n - i,
    {
        r.push(false);
        i = i + 1;
    }
    r
}

fn vec_has(v: &Vec<usize>, x: usize) -> (r: bool)
    ensures
        r == v@.contains(x),
{
    let mut i: usize = 0;
    while i < v.len()
        invariant
            i <= v@.len(),
            forall|j: int| 0 <= j < i ==> v@[j] != x,
        decreases v@.len() - i,
    {
        if v[i] == x {
            proof {
                assert(v@[i as int] == x);
            }
            return true;
        }
        i = i + 1;
    }
    false
}

/// Run the whole pass over a blueprint. An application is produced exactly
/// when the blueprint is clean; otherwise every failure found is reported,
/// each tied to the target it arose in, and no partial artifact is emitted.
pub fn build_application(bp: Blueprint) -> (r: Result<Application, Vec<BuildFailure>>)
    requires
        bp.types@.len() < u64::MAX,
        bp.routes@.len() < u32::MAX,
        forall|i: int|
            0 <= i < bp.constructors@.len() ==> (#[trigger] bp.constructors@[i]).ty
                < bp.types@.len(),
        forall|i: int|
            0 <= i < bp.framework_inputs@.len() ==> (#[trigger] bp.framework_inputs@[i])
                < bp.types@.len(),
    ensures
        r is Ok <==> blueprint_ok(bp),
        match r {
            Ok(app) => application_matches(bp, app),
            Err(errs) => {
                &&& errs@.len() > 0
                &&& forall|f: int| 0 <= f < errs@.len() ==> failure_ok(bp, #[trigger] errs@[f])
            },
        },
{
    let Blueprint { types, constructors, routes, framework_inputs } = bp;
    let ghost n = types@.len();
    let n_exec = types.len();
    let mut reg = Registry::new(types);

    // The constructor registry: first registration of a type wins, a second
    // one is a build-time error.
    let n_cons = constructors.len();
    let mut ci: usize = 0;
    proof {
        assert(reg.model() =~= reg_model_after(n, constructors@, 0));
    }
    while ci < n_cons
        invariant
            reg.wf(),
            reg.n_types() == n,
            n < u64::MAX,
            n_cons == constructors@.len(),
            n == bp.types@.len(),
            constructors@ == bp.constructors@,
            ci <= n_cons,
            forall|i: int|
                0 <= i < constructors@.len() ==> (#[trigger] constructors@[i]).ty < n,
            reg.model() == reg_model_after(n, constructors@, ci as int),
            !has_dup_ctor(n, constructors@, ci as int),
            reg.names() == bp.types@.map(|k: int, t: TypeInfo| t.name@),
            reg.origins() == bp.types@.map(|k: int, t: TypeInfo| t.origin),
        decreases n_cons - ci,
    {
        let c = &constructors[ci];
        match reg.register(c.ty, clone_callable(&c.callable), c.scope) {
            Ok(()) => {
                proof {
                    assert(reg.model() =~= reg_model_after(n, constructors@, ci as int + 1));
                }
            },
            Err(e) => {
                proof {
                    assert(has_dup_ctor(n, constructors@, ci as int + 1));
                    lemma_dup_mono(n, constructors@, ci as int + 1, constructors@.len() as int);
                    assert(!blueprint_ok(bp));
                }
                let mut errs: Vec<BuildFailure> = Vec::new();
                errs.push(BuildFailure::Blueprint { error: e });
                proof {
                    assert(failure_ok(bp, errs@[0]));
                }
                return Err(errs);
            },
        }
        ci = ci + 1;
    }
    proof {
        assert(reg.model() == bp_reg_model(bp));
    }

    // Route ids: dense, in declaration order, duplicate paths rejected.
    let route_table = match assign_ids(&routes) {
        Ok(t) => t,
        Err(e) => {
            let mut errs: Vec<BuildFailure> = Vec::new();
            errs.push(BuildFailure::Blueprint { error: e });
            return Err(errs);
        },
    };

    // The framework-supplied types, as flags over the type table.
    let mut fw_flags = make_flags(n_exec);
    let n_fw = framework_inputs.len();
    let mut fi: usize = 0;
    proof {
        assert(pre_set(fw_flags@) =~= id_set(framework_inputs@, 0));
    }
    while fi < n_fw
        invariant
            n_fw == framework_inputs@.len(),
            fi <= n_fw,
            fw_flags@.len() == n,
            n == bp.types@.len(),
            forall|i: int|
                0 <= i < framework_inputs@.len() ==> (#[trigger] framework_inputs@[i]) < n,
            pre_set(fw_flags@) == id_set(framework_inputs@, fi as int),
        decreases n_fw - fi,
    {
        fw_flags.set(framework_inputs[fi], true);
        fi = fi + 1;
        proof {
            assert(pre_set(fw_flags@) =~= id_set(framework_inputs@, fi as int));
        }
    }
    proof {
        assert(pre_set(fw_flags@) == bp_fw_set(bp));
        assert(framework_inputs@ == bp.framework_inputs@);
    }

    // First pass over the handlers: resolve each against the framework
    // inputs alone, collect every failure, and gather the singletons the
    // successful ones construct, in discovery order.
    let n_routes = routes.len();
    let mut errs: Vec<BuildFailure> = Vec::new();
    let mut stream: Vec<usize> = Vec::new();
    let mut h: usize = 0;
    while h < n_routes
        invariant
            reg.wf(),
            reg.n_types() == n,
            n < u64::MAX,
            fw_flags@.len() == n,
            pre_set(fw_flags@) == bp_fw_set(bp),
            reg.model() == bp_reg_model(bp),
            n_routes == routes@.len(),
            routes@ == bp.routes@,
            h <= n_routes,
            stream@ == singleton_stream(bp, h as int),
            forall|f: int| 0 <= f < errs@.len() ==> failure_ok(bp, #[trigger] errs@[f]),
            errs@.len() == 0 <==> (forall|hh: int|
                0 <= hh < h ==> (#[trigger] prelim_outcome(bp, hh)).1 is None),
        decreases n_routes - h,
    {
        match resolve_graph(&reg, &fw_flags, &routes[h].handler.inputs) {
            Ok(g) => {
                let ghost (mst, me) = prelim_outcome(bp, h as int);
                proof {
                    assert(me is None && g.order@ == mst.order);
                }
                let m = g.order.len();
                let mut k: usize = 0;
                while k < m
                    invariant
                        reg.wf(),
                        reg.n_types() == n,
                        reg.model() == bp_reg_model(bp),
                        m == g.order@.len(),
                        k <= m,
                        g.order@ == mst.order,
                        stream@ == singleton_stream(bp, h as int) + singletons_prefix(
                            bp_reg_model(bp),
                            mst.order,
                            k as int,
                        ),
                    decreases m - k,
                {
                    let t = g.order[k];
                    let is_singleton = match reg.scope_of(t) {
                        Some(Scope::Singleton) => true,
                        _ => false,
                    };
                    if is_singleton {
                        proof {
                            assert(effective_scope(bp_reg_model(bp), t) == Scope::Singleton);
                        }
                        stream.push(t);
                    } else {
                        proof {
                            assert(effective_scope(bp_reg_model(bp), t) != Scope::Singleton);
                        }
                    }
                    k = k + 1;
                    proof {
                        assert(stream@ =~= singleton_stream(bp, h as int) + singletons_prefix(
                            bp_reg_model(bp),
                            mst.order,
                            k as int,
                        ));
                    }
                }
                proof {
                    assert(stream@ =~= singleton_stream(bp, h as int + 1));
                }
            },
            Err(e) => {
                errs.push(BuildFailure::Handler { route: h, error: e });
                proof {
                    assert(stream@ =~= singleton_stream(bp, h as int + 1));
                }
            },
        }
        h = h + 1;
    }
    if errs.len() > 0 {
        proof {
            assert(!blueprint_ok(bp));
        }
        return Err(errs);
    }
    proof {
        assert(forall|hh: int|
            0 <= hh < bp.routes@.len() ==> (#[trigger] prelim_outcome(bp, hh)).1 is None);
    }

    // The state-graph roots: each used singleton once, first discovery first.
    let mut roots: Vec<usize> = Vec::new();
    let n_stream = stream.len();
    let mut si: usize = 0;
    while si < n_stream
        invariant
            n_stream == stream@.len(),
            si <= n_stream,
            stream@ == singleton_stream(bp, bp.routes@.len() as int),
            roots@ == dedup_prefix(stream@, si as int),
        decreases n_stream - si,
    {
        let t = stream[si];
        if !vec_has(&roots, t) {
            roots.push(t);
        }
        si = si + 1;
    }
    proof {
        assert(roots@ == bp_singleton_roots(bp));
    }

    // The application-state graph: build every used singleton exactly once,
    // from nothing external.
    let no_flags = make_flags(n_exec);
    proof {
        assert(pre_set(no_flags@) =~= Set::<usize>::empty());
    }
    let state_graph = match resolve_graph(&reg, &no_flags, &roots) {
        Ok(g) => g,
        Err(e) => {
            proof {
                assert(state_outcome(bp).1 == Some(err_model(e)));
                assert(!blueprint_ok(bp));
            }
            let mut errs2: Vec<BuildFailure> = Vec::new();
            errs2.push(BuildFailure::AppState { error: e });
            return Err(errs2);
        },
    };

    // No singleton of the state graph may lean on per-request state.
    match check_scopes(&reg, &state_graph) {
        Ok(()) => {},
        Err(e) => {
            let mut errs2: Vec<BuildFailure> = Vec::new();
            errs2.push(BuildFailure::Scope { error: e });
            proof {
                assert(!blueprint_ok(bp));
            }
            return Err(errs2);
        },
    }

    // Stable binding names for the state container.
    proof {
        reg.lemma_model_len();
        assert(order_registered(bp_reg_model(bp), crate::model::empty_state()));
        lemma_resolve_list_order_registered(
            bp_reg_model(bp),
            Set::empty(),
            bp_singleton_roots(bp),
            crate::model::empty_state(),
            crate::model::full_fuel(bp_reg_model(bp)),
        );
        assert(order_registered(bp_reg_model(bp), state_outcome(bp).0));
        assert forall|i: int| 0 <= i < state_graph.order@.len() implies state_graph.order@[i]
            < reg.n_types() by {
            assert(registered(bp_reg_model(bp), state_outcome(bp).0.order[i]));
        }
    }
    let state_bindings = assign_bindings(&reg, &state_graph.order);

    // Each handler again, now borrowing the pre-built singletons.
    let mut pre2 = clone_flags(&fw_flags);
    let n_state = state_graph.order.len();
    let mut oi: usize = 0;
    while oi < n_state
        invariant
            n_state == state_graph.order@.len(),
            oi <= n_state,
            pre2@.len() == n,
            n == bp.types@.len(),
            state_graph.order@ == state_outcome(bp).0.order,
            forall|i: int|
                0 <= i < state_graph.order@.len() ==> (#[trigger] state_graph.order@[i]) < n,
            pre_set(pre2@) == bp_fw_set(bp).union(id_set(state_graph.order@, oi as int)),
        decreases n_state - oi,
    {
        let ghost before = pre_set(pre2@);
        let t = state_graph.order[oi];
        pre2.set(t, true);
        oi = oi + 1;
        proof {
            assert(pre_set(pre2@) =~= before.insert(t));
            assert(id_set(state_graph.order@, oi as int) == id_set(
                state_graph.order@,
                oi as int - 1,
            ).insert(t));
            assert(pre_set(pre2@) =~= bp_fw_set(bp).union(
                id_set(state_graph.order@, oi as int),
            ));
        }
    }
    proof {
        assert(pre_set(pre2@) == bp_handler_pre(bp));
    }

    let mut handler_graphs: Vec<CallGraph> = Vec::new();
    let mut h2: usize = 0;
    while h2 < n_routes
        invariant
            reg.wf(),
            reg.n_types() == n,
            n < u64::MAX,
            pre2@.len() == n,
            pre_set(pre2@) == bp_handler_pre(bp),
            reg.model() == bp_reg_model(bp),
            n_routes == routes@.len(),
            routes@ == bp.routes@,
            h2 <= n_routes,
            forall|f: int| 0 <= f < errs@.len() ==> failure_ok(bp, #[trigger] errs@[f]),
            errs@.len() == 0 <==> (forall|hh: int|
                0 <= hh < h2 ==> (#[trigger] final_outcome(bp, hh)).1 is None),
            errs@.len() == 0 ==> handler_graphs@.len() == h2,
            forall|hh: int|
                0 <= hh < handler_graphs@.len() ==> (#[trigger] handler_graphs@[hh]).targets@
                    == bp.routes@[hh].handler.inputs@ && handler_graphs@[hh].order@
                    == final_outcome(bp, hh).0.order && handler_graphs@[hh].ext_inputs@
                    == final_outcome(bp, hh).0.ext,
        decreases n_routes - h2,
    {
        match resolve_graph(&reg, &pre2, &routes[h2].handler.inputs) {
            Ok(g) => {
                proof {
                    assert(final_outcome(bp, h2 as int).1 is None);
                }
                if errs.len() == 0 {
                    handler_graphs.push(g);
                }
            },
            Err(e) => {
                proof {
                    assert(final_outcome(bp, h2 as int).1 == Some(err_model(e)));
                }
                errs.push(BuildFailure::Handler { route: h2, error: e });
            },
        }
        h2 = h2 + 1;
    }
    if errs.len() > 0 {
        proof {
            assert(!blueprint_ok(bp));
        }
        return Err(errs);
    }

    // The abstract per-request program: route id to handler and wiring.
    let dispatch_table = synthesize(&routes, &state_bindings);

    proof {
        assert(blueprint_ok(bp));
        assert(reg.names() == bp.types@.map(|k: int, t: TypeInfo| t.name@));
    }
    Ok(
        Application {
            routes,
            state_graph,
            state_bindings,
            handler_graphs,
            route_table,
            dispatch_table,
        },
    )
}

fn clone_flags(v: &Vec<bool>) -> (r: Vec<bool>)
    ensures
        r@ == v@,
{
    let mut r: Vec<bool> = Vec::new();
    let mut i: usize = 0;
    while i < v.len()
        invariant
            i <= v@.len(),
            r@ == v@.subrange(0, i as int),
        decreases v@.len() - i,
    {
        r.push(v[i]);
        i = i + 1;
        proof {
            assert(r@ =~= v@.subrange(0, i as int));
        }
    }
    proof {
        assert(r@ =~= v@);
    }
    r
}

} // verus!
