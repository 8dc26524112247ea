//! The library's general guarantees, each stated over the ghost models that
//! the executable functions are proved to compute.

use vstd::prelude::*;
use crate::registry::CtorModel;
use crate::model::{ModelErr, resolve_targets_m};
use crate::scope::{scopes_ok, violating_edge};
use crate::registry::Scope;
use crate::bindings::BindingName;
use crate::dispatch::{ArgWiring, DispatchTable, entry_ok, wiring_ok};
use crate::router::{Route, RouteTable};
use crate::pipeline::{Application, Blueprint, application_matches};

verus! {

/// Route ids and dispatch entries are in bijection: a route id is in the
/// id-to-path mapping exactly when one dispatch entry carries it, and no two
/// entries carry the same id.
pub proof fn law_dispatch_route_bijection(
    t: RouteTable,
    d: DispatchTable,
    routes: Seq<Route>,
    bindings: Seq<BindingName>,
)
    requires
        routes.len() < u32::MAX,
        t.wf_for(routes.map(|i: int, rt: Route| rt.path@)),
        d.entries@.len() == routes.len(),
        forall|i: int|
            0 <= i < routes.len() ==> entry_ok(bindings, routes, i, #[trigger] d.entries@[i]),
    ensures
        forall|k: u32|
            t.route_map().dom().contains(k) <==> exists|i: int|
                0 <= i < d.entries@.len() && (#[trigger] d.entries@[i]).route_id == k,
        forall|i: int, j: int|
            0 <= i < j < d.entries@.len() ==> d.entries@[i].route_id != d.entries@[j].route_id,
{
    assert(routes.map(|i: int, rt: Route| rt.path@).len() == routes.len());
    assert forall|k: u32| t.route_map().dom().contains(k) implies exists|i: int|
        0 <= i < d.entries@.len() && (#[trigger] d.entries@[i]).route_id == k by {
        assert((k as int) < routes.len());
        assert(d.entries@[k as int].route_id == k);
    }
    assert forall|k: u32|
        (exists|i: int| 0 <= i < d.entries@.len() && (#[trigger] d.entries@[i]).route_id == k)
        implies t.route_map().dom().contains(k) by {
        let i = choose|i: int|
            0 <= i < d.entries@.len() && (#[trigger] d.entries@[i]).route_id == k;
        assert(d.entries@[i].route_id == i as u32);
        assert((k as int) == i);
    }
}

/// A dependency chain resolves to one constructor invocation per type, in
/// dependency order: with a registry where the third type requires the
/// second and the second requires the first, resolving the third succeeds
/// with exactly the evaluation order first, second, third.
pub proof fn law_chain_resolves_in_order(
    reg: Seq<Option<CtorModel>>,
    sa: Scope,
    sb: Scope,
    sc: Scope,
    oa: usize,
    ob: usize,
    oc: usize,
)
    requires
        reg.len() == 3,
        reg[0] == Some(CtorModel { inputs: Seq::empty(), output: oa, scope: sa }),
        reg[1] == Some(CtorModel { inputs: seq![0usize], output: ob, scope: sb }),
        reg[2] == Some(CtorModel { inputs: seq![1usize], output: oc, scope: sc }),
    ensures
        resolve_targets_m(reg, Set::empty(), seq![2usize]).1 is None,
        resolve_targets_m(reg, Set::empty(), seq![2usize]).0.order =~= seq![
            0usize,
            1usize,
            2usize,
        ],
{
    reveal_with_fuel(crate::model::resolve_ty_m, 5);
    reveal_with_fuel(crate::model::resolve_list_m, 9);
    assert(seq![2usize].subrange(1, 1) =~= Seq::<usize>::empty());
    assert(seq![1usize].subrange(1, 1) =~= Seq::<usize>::empty());
    assert(seq![0usize].subrange(1, 1) =~= Seq::<usize>::empty());
}

/// A cyclic registry fails any target demanding a type of the cycle with
/// `DependencyCycle`, and the reported path holds both types of the cycle.
pub proof fn law_cycle_reported(reg: Seq<Option<CtorModel>>, oa: usize, ob: usize, s: Scope)
    requires
        reg.len() == 2,
        reg[0] == Some(CtorModel { inputs: seq![1usize], output: oa, scope: s }),
        reg[1] == Some(CtorModel { inputs: seq![0usize], output: ob, scope: s }),
    ensures
        ({
            let e = resolve_targets_m(reg, Set::empty(), seq![0usize]).1;
            e matches Some(ModelErr::Cycle { path }) && path.contains(0usize) && path.contains(
                1usize,
            )
        }),
        ({
            let e = resolve_targets_m(reg, Set::empty(), seq![1usize]).1;
            e matches Some(ModelErr::Cycle { path }) && path.contains(0usize) && path.contains(
                1usize,
            )
        }),
{
    reveal_with_fuel(crate::model::resolve_ty_m, 5);
    reveal_with_fuel(crate::model::resolve_list_m, 9);
    assert(seq![1usize].subrange(1, 1) =~= Seq::<usize>::empty());
    assert(seq![0usize].subrange(1, 1) =~= Seq::<usize>::empty());
    assert(Seq::<usize>::empty().push(0usize).push(1usize)[0] == 0usize);
    assert(Seq::<usize>::empty().push(0usize).push(1usize).contains(0usize));
    assert(Seq::<usize>::empty().push(1usize).push(0usize)[0] == 1usize);
    assert(Seq::<usize>::empty().push(1usize).push(0usize).contains(1usize));
    let p0 = resolve_targets_m(reg, Set::empty(), seq![0usize]).1;
    assert(p0 matches Some(ModelErr::Cycle { path }) && path =~= seq![0usize, 1usize, 0usize]);
    let p1 = resolve_targets_m(reg, Set::empty(), seq![1usize]).1;
    assert(p1 matches Some(ModelErr::Cycle { path }) && path =~= seq![1usize, 0usize, 1usize]);
}

/// A demanded type without a constructor fails with `UnresolvedType` naming
/// exactly that type and its requester — the target itself, or the
/// constructor that demanded it — while an independent target of the same
/// registry still resolves.
pub proof fn law_unresolved_named(reg: Seq<Option<CtorModel>>, ob: usize, oc: usize, s: Scope)
    requires
        reg.len() == 3,
        reg[0] is None,
        reg[1] == Some(CtorModel { inputs: seq![0usize], output: ob, scope: s }),
        reg[2] == Some(CtorModel { inputs: Seq::empty(), output: oc, scope: s }),
    ensures
        resolve_targets_m(reg, Set::empty(), seq![0usize]).1 == Some(
            ModelErr::Unresolved { ty: 0usize, requested_by: None },
        ),
        resolve_targets_m(reg, Set::empty(), seq![1usize]).1 == Some(
            ModelErr::Unresolved { ty: 0usize, requested_by: Some(1usize) },
        ),
        resolve_targets_m(reg, Set::empty(), seq![2usize]).1 is None,
{
    reveal_with_fuel(crate::model::resolve_ty_m, 5);
    reveal_with_fuel(crate::model::resolve_list_m, 9);
    assert(seq![0usize].subrange(1, 1) =~= Seq::<usize>::empty());
    assert(seq![1usize].subrange(1, 1) =~= Seq::<usize>::empty());
    assert(seq![2usize].subrange(1, 1) =~= Seq::<usize>::empty());
}

/// A singleton constructor that requires a request-scoped value, directly or
/// through another singleton, is a scope violation; with the scopes swapped
/// (request-scoped depending on singleton) every graph is clean.
pub proof fn law_scope_rule(reg: Seq<Option<CtorModel>>, down: Seq<Option<CtorModel>>, o: usize)
    requires
        reg.len() == 3,
        reg[0] == Some(
            CtorModel { inputs: seq![1usize], output: o, scope: Scope::Singleton },
        ),
        reg[1] == Some(
            CtorModel { inputs: seq![2usize], output: o, scope: Scope::Singleton },
        ),
        reg[2] == Some(
            CtorModel { inputs: Seq::empty(), output: o, scope: Scope::RequestScoped },
        ),
        down.len() == 2,
        down[0] == Some(
            CtorModel { inputs: seq![1usize], output: o, scope: Scope::RequestScoped },
        ),
        down[1] == Some(
            CtorModel { inputs: Seq::empty(), output: o, scope: Scope::Singleton },
        ),
    ensures
        violating_edge(reg, 1usize, 2usize),
        forall|order: Seq<usize>| order.contains(1usize) ==> !scopes_ok(reg, order),
        forall|order: Seq<usize>| scopes_ok(down, order),
{
    assert(seq![2usize].contains(2usize)) by {
        assert(seq![2usize][0] == 2usize);
    }
    assert forall|order: Seq<usize>| order.contains(1usize) implies !scopes_ok(reg, order) by {
        let i = choose|i: int| 0 <= i < order.len() && order[i] == 1usize;
        assert(violating_edge(reg, order[i], 2usize));
    }
    assert forall|order: Seq<usize>| scopes_ok(down, order) by {
        assert forall|i: int, u: usize|
            0 <= i < order.len() implies !(#[trigger] violating_edge(down, order[i], u)) by {
            let t = order[i];
            if violating_edge(down, t, u) {
                assert(t == 1usize);
                assert(Seq::<usize>::empty().contains(u));
            }
        }
    }
}

/// One blueprint determines one application: any two results the pass pins
/// for the same blueprint agree on graph structure, evaluation orders,
/// binding names, route ids and argument wiring. Resolving a blueprint twice
/// therefore produces identical output.
pub proof fn law_resolution_idempotent(bp: Blueprint, a1: Application, a2: Application)
    requires
        application_matches(bp, a1),
        application_matches(bp, a2),
    ensures
        a1.routes@ == a2.routes@,
        a1.state_graph.targets@ == a2.state_graph.targets@,
        a1.state_graph.order@ == a2.state_graph.order@,
        a1.state_graph.ext_inputs@ == a2.state_graph.ext_inputs@,
        a1.route_table.route_map() == a2.route_table.route_map(),
        a1.state_bindings@.len() == a2.state_bindings@.len(),
        forall|i: int|
            0 <= i < a1.state_bindings@.len() ==> (#[trigger] a1.state_bindings@[i]).ty
                == a2.state_bindings@[i].ty && a1.state_bindings@[i].stem@
                == a2.state_bindings@[i].stem@ && a1.state_bindings@[i].disambiguator
                == a2.state_bindings@[i].disambiguator,
        forall|h: int|
            0 <= h < a1.handler_graphs@.len() ==> (#[trigger] a1.handler_graphs@[h]).order@
                == a2.handler_graphs@[h].order@ && a1.handler_graphs@[h].ext_inputs@
                == a2.handler_graphs@[h].ext_inputs@,
        a1.dispatch_table.entries@.len() == a2.dispatch_table.entries@.len(),
        forall|i: int|
            0 <= i < a1.dispatch_table.entries@.len() ==> (
            #[trigger] a1.dispatch_table.entries@[i]).route_id
                == a2.dispatch_table.entries@[i].route_id
                && a1.dispatch_table.entries@[i].args@ =~= a2.dispatch_table.entries@[i].args@,
{
    let paths = bp.routes@.map(|i: int, rt: Route| rt.path@);
    assert(paths.len() == bp.routes@.len());
    assert forall|k: u32| a1.route_table.route_map().dom().contains(k)
        <==> a2.route_table.route_map().dom().contains(k) by {}
    assert(a1.route_table.route_map() =~= a2.route_table.route_map()) by {
        assert forall|k: u32|
            a1.route_table.route_map().dom().contains(k) implies a1.route_table.route_map()[k]
            == a2.route_table.route_map()[k] by {
            assert((k as int) < paths.len());
            assert(((k as int) as u32) == k);
            assert(a1.route_table.route_map()[(k as int) as u32] == paths[k as int]);
            assert(a2.route_table.route_map()[(k as int) as u32] == paths[k as int]);
        }
    }
    assert forall|i: int|
        0 <= i < a1.dispatch_table.entries@.len() implies (
    #[trigger] a1.dispatch_table.entries@[i]).route_id
        == a2.dispatch_table.entries@[i].route_id && a1.dispatch_table.entries@[i].args@
        =~= a2.dispatch_table.entries@[i].args@ by {
        let e1 = a1.dispatch_table.entries@[i];
        let e2 = a2.dispatch_table.entries@[i];
        assert(entry_ok(a1.state_bindings@, bp.routes@, i, e1));
        assert(entry_ok(a2.state_bindings@, bp.routes@, i, e2));
        assert forall|k: int| 0 <= k < e1.args@.len() implies e1.args@[k] == e2.args@[k] by {
            let t = bp.routes@[i].handler.inputs@[k];
            lemma_wiring_determined(a1.state_bindings@, a2.state_bindings@, t, e1.args@[k], e2.args@[k]);
        }
    }
}

/// Two equal binding tables wire an input the same way: the first binding of
/// a type is unique.
proof fn lemma_wiring_determined(
    b1: Seq<BindingName>,
    b2: Seq<BindingName>,
    t: usize,
    a1: ArgWiring,
    a2: ArgWiring,
)
    requires
        b1.len() == b2.len(),
        forall|i: int| 0 <= i < b1.len() ==> (#[trigger] b1[i]).ty == b2[i].ty,
        wiring_ok(b1, t, a1),
        wiring_ok(b2, t, a2),
    ensures
        a1 == a2,
{
    match (a1, a2) {
        (ArgWiring::SingletonBinding { binding: x }, ArgWiring::SingletonBinding {
            binding: y,
        }) => {
            if x < y {
                assert(b2[x as int].ty != t);
                assert(b1[x as int].ty == t);
                assert(false);
            }
            if y < x {
                assert(b1[y as int].ty != t);
                assert(b2[y as int].ty == t);
                assert(false);
            }
        },
        (ArgWiring::SingletonBinding { binding: x }, ArgWiring::RequestScoped { .. }) => {
            assert(b2[x as int].ty != t);
            assert(false);
        },
        (ArgWiring::RequestScoped { .. }, ArgWiring::SingletonBinding { binding: y }) => {
            assert(b1[y as int].ty != t);
            assert(false);
        },
        (ArgWiring::RequestScoped { .. }, ArgWiring::RequestScoped { .. }) => {},
    }
}

} // verus!
