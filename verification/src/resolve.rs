//! The call graph builder: depth-first expansion of a target's required
//! types over the constructor registry, with value sharing, cycle detection
//! and a deterministic evaluation order. The executable resolver returns
//! exactly what the ghost model in `model` computes.

use vstd::prelude::*;
use vstd::pervasive::VecAdditionalExecFns;
use crate::registry::{CtorModel, Registry};
use crate::model::{
    ModelErr, ResolveState, ctor_inputs, empty_state, full_fuel, lemma_distinct_below,
    lemma_targets_no_exhaust, registered, resolve_list_m, resolve_targets_m, resolve_ty_m,
    stack_ok,
};

verus! {

/// Why resolution of one target failed. Fatal for that target only; other
/// targets of the same blueprint are still resolved.
#[derive(Debug)]
pub enum ResolutionError {
    /// `ty` has no registered constructor. `requested_by` is the type whose
    /// constructor demanded it, or `None` when the target itself did.
    UnresolvedType { ty: usize, requested_by: Option<usize> },
    /// The constructor of the last type of `path` was demanded again while
    /// its own expansion was still in progress: `path` is the active
    /// resolution path from the target to the repeated type.
    DependencyCycle { path: Vec<usize> },
}

/// The ghost image of a resolution error.
pub open spec fn err_model(e: ResolutionError) -> ModelErr {
    match e {
        ResolutionError::UnresolvedType { ty, requested_by } => ModelErr::Unresolved {
            ty,
            requested_by,
        },
        ResolutionError::DependencyCycle { path } => ModelErr::Cycle { path: path@ },
    }
}

/// The set of types flagged as externally supplied.
pub open spec fn pre_set(pre: Seq<bool>) -> Set<usize> {
    Set::new(|t: usize| t < pre.len() && pre[t as int])
}

/// A resolved call graph. Every entry of `order` stands for one Compute node
/// (the invocation of that type's constructor) together with the Type node
/// it produces; a type appears at most once, producers come before
/// consumers, and ties between independent branches follow first discovery.
/// `ext_inputs` are the Type nodes supplied from outside the graph (borrowed
/// singletons, framework-provided request state), in first-discovery order.
pub struct CallGraph {
    /// The target's required types, as requested.
    pub targets: Vec<usize>,
    /// Constructed types in evaluation order.
    pub order: Vec<usize>,
    /// Externally supplied types in first-discovery order.
    pub ext_inputs: Vec<usize>,
}

struct WalkState {
    stack: Vec<usize>,
    inprog: Vec<bool>,
    done: Vec<bool>,
    order: Vec<usize>,
    ext: Vec<usize>,
}

/// The ghost image of the walk state.
spec fn walk_model(st: WalkState) -> ResolveState {
    ResolveState {
        stack: st.stack@,
        done: Set::new(|t: usize| t < st.done@.len() && st.done@[t as int]),
        order: st.order@,
        ext: st.ext@,
    }
}

/// The executable bookkeeping mirrors the ghost state.
spec fn walk_inv(n: nat, st: WalkState) -> bool {
    &&& st.done@.len() == n
    &&& st.inprog@.len() == n
    &&& forall|t: usize| t < n ==> st.inprog@[t as int] == st.stack@.contains(t)
    &&& forall|i: int| 0 <= i < st.stack@.len() ==> st.stack@[i] < n
}

/// Copy a sequence of type ids.
pub fn clone_ids(v: &Vec<usize>) -> (r: Vec<usize>)
    ensures
        r@ == v@,
{
    let mut r: Vec<usize> = Vec::new();
    let mut i: usize = 0;
    while i < v.len()
        invariant
            i <= v@.len(),
            r@ == v@.subrange(0, i as int),
        decreases v@.len() - i,
    {
        r.push(v[i]);
        i = i + 1;
        proof {
            assert(r@ =~= v@.subrange(0, i as int));
        }
    }
    proof {
        assert(r@ =~= v@);
    }
    r
}

fn resolve_one(
    reg: &Registry,
    pre: &Vec<bool>,
    t: usize,
    st: &mut WalkState,
    fuel: u64,
) -> (r: Result<(), ResolutionError>)
    requires
        reg.wf(),
        pre@.len() == reg.n_types(),
        walk_inv(reg.n_types(), *old(st)),
        stack_ok(reg.model(), walk_model(*old(st))),
        fuel + old(st).stack@.len() > reg.n_types(),
    ensures
        ({
            let (mst, me) = resolve_ty_m(
                reg.model(),
                pre_set(pre@),
                t,
                walk_model(*old(st)),
                fuel as nat,
            );
            match r {
                Ok(()) => {
                    &&& me is None
                    &&& walk_model(*final(st)) == mst
                    &&& walk_inv(reg.n_types(), *final(st))
                    &&& stack_ok(reg.model(), walk_model(*final(st)))
                    &&& final(st).stack@ == old(st).stack@
                },
                Err(e) => me == Some(err_model(e)),
            }
        }),
    decreases fuel, 0nat,
{
    let ghost regm = reg.model();
    let ghost prem = pre_set(pre@);
    let ghost st0 = walk_model(*old(st));
    let ghost m = resolve_ty_m(regm, prem, t, st0, fuel as nat);
    let n = reg.type_count();
    proof {
        assert(regm.len() == n);
    }
    if t < n && st.done[t] {
        proof {
            assert(st0.done.contains(t));
            assert(walk_model(*st) =~= m.0);
        }
        return Ok(());
    }
    proof {
        assert(!st0.done.contains(t));
    }
    if t < n && st.inprog[t] {
        let mut path = clone_ids(&st.stack);
        path.push(t);
        proof {
            assert(st0.stack.contains(t));
            assert(path@ == st0.stack.push(t));
        }
        return Err(ResolutionError::DependencyCycle { path });
    }
    proof {
        assert(!st0.stack.contains(t)) by {
            if t < n {
            } else {
                if st0.stack.contains(t) {
                    let i = choose|i: int| 0 <= i < st0.stack.len() && st0.stack[i] == t;
                    assert(st0.stack[i] < n);
                }
            }
        }
    }
    if t < pre.len() && pre[t] {
        st.done.set(t, true);
        st.ext.push(t);
        proof {
            assert(prem.contains(t));
            assert(walk_model(*st).done =~= st0.done.insert(t));
            assert(walk_model(*st) =~= m.0);
            assert forall|u: usize| u < reg.n_types() implies st.inprog@[u as int]
                == st.stack@.contains(u) by {}
        }
        return Ok(());
    }
    proof {
        assert(!prem.contains(t));
    }
    match reg.inputs_of(t) {
        None => {
            proof {
                assert(!registered(regm, t));
            }
            let rb: Option<usize> = if st.stack.len() == 0 {
                None
            } else {
                Some(st.stack[st.stack.len() - 1])
            };
            proof {
                if st0.stack.len() > 0 {
                    assert(rb == Some(st0.stack.last()));
                }
            }
            return Err(ResolutionError::UnresolvedType { ty: t, requested_by: rb });
        },
        Some(inputs) => {
            proof {
                assert(registered(regm, t));
                assert(inputs@ == ctor_inputs(regm, t));
            }
            if fuel == 0 {
                proof {
                    lemma_distinct_below(st0.stack, reg.n_types());
                    assert(false);
                }
                return Err(ResolutionError::UnresolvedType { ty: t, requested_by: None });
            }
            st.inprog.set(t, true);
            st.stack.push(t);
            let ghost opened = ResolveState { stack: st0.stack.push(t), ..st0 };
            proof {
                assert(walk_model(*st) =~= opened);
                assert forall|u: usize| u < reg.n_types() implies st.inprog@[u as int]
                    == st.stack@.contains(u) by {
                    if u == t {
                        assert(st.stack@[st.stack@.len() - 1] == t);
                    } else {
                        assert(st.stack@.contains(u) == st0.stack.contains(u)) by {
                            if st0.stack.contains(u) {
                                let i = choose|i: int|
                                    0 <= i < st0.stack.len() && st0.stack[i] == u;
                                assert(st.stack@[i] == u);
                            } else if st.stack@.contains(u) {
                                let i = choose|i: int|
                                    0 <= i < st.stack@.len() && st.stack@[i] == u;
                                assert(i < st0.stack.len());
                            }
                        }
                    }
                }
                assert(stack_ok(regm, opened)) by {
                    assert forall|i: int, j: int|
                        0 <= i < opened.stack.len() && 0 <= j < opened.stack.len() && i != j
                        implies opened.stack[i] != opened.stack[j] by {
                        if i < st0.stack.len() && j < st0.stack.len() {
                        } else if i < st0.stack.len() {
                            assert(st0.stack[i] != t);
                        } else {
                            assert(st0.stack[j] != t);
                        }
                    }
                }
            }
            let rr = resolve_many(reg, pre, inputs, 0, st, fuel - 1);
            proof {
                assert(inputs@.skip(0) =~= inputs@);
            }
            match rr {
                Err(e) => {
                    return Err(e);
                },
                Ok(()) => {
                    let ghost sub = resolve_list_m(
                        regm,
                        prem,
                        ctor_inputs(regm, t),
                        opened,
                        (fuel - 1) as nat,
                    ).0;
                    proof {
                        assert(walk_model(*st) == sub);
                        assert(st.stack@ == opened.stack);
                    }
                    st.stack.pop();
                    st.inprog.set(t, false);
                    st.done.set(t, true);
                    st.order.push(t);
                    proof {
                        assert(st.stack@ =~= st0.stack) by {
                            assert(opened.stack.subrange(0, opened.stack.len() - 1) =~= st0.stack);
                        }
                        assert(walk_model(*st).done =~= sub.done.insert(t));
                        assert(walk_model(*st) =~= m.0);
                        assert forall|u: usize| u < reg.n_types() implies st.inprog@[u as int]
                            == st.stack@.contains(u) by {
                            if u != t {
                                assert(opened.stack.contains(u) == st0.stack.contains(u)) by {
                                    if st0.stack.contains(u) {
                                        let i = choose|i: int|
                                            0 <= i < st0.stack.len() && st0.stack[i] == u;
                                        assert(opened.stack[i] == u);
                                    } else if opened.stack.contains(u) {
                                        let i = choose|i: int|
                                            0 <= i < opened.stack.len() && opened.stack[i] == u;
                                        assert(i < st0.stack.len());
                                    }
                                }
                            } else {
                                assert(!st0.stack.contains(t));
                            }
                        }
                    }
                    return Ok(());
                },
            }
        },
    }
}

fn resolve_many(
    reg: &Registry,
    pre: &Vec<bool>,
    ts: &Vec<usize>,
    from: usize,
    st: &mut WalkState,
    fuel: u64,
) -> (r: Result<(), ResolutionError>)
    requires
        reg.wf(),
        pre@.len() == reg.n_types(),
        from <= ts@.len(),
        walk_inv(reg.n_types(), *old(st)),
        stack_ok(reg.model(), walk_model(*old(st))),
        fuel + old(st).stack@.len() > reg.n_types(),
    ensures
        ({
            let (mst, me) = resolve_list_m(
                reg.model(),
                pre_set(pre@),
                ts@.skip(from as int),
                walk_model(*old(st)),
                fuel as nat,
            );
            match r {
                Ok(()) => {
                    &&& me is None
                    &&& walk_model(*final(st)) == mst
                    &&& walk_inv(reg.n_types(), *final(st))
                    &&& stack_ok(reg.model(), walk_model(*final(st)))
                    &&& final(st).stack@ == old(st).stack@
                },
                Err(e) => me == Some(err_model(e)),
            }
        }),
    decreases fuel, ts@.len() - from + 1,
{
    let ghost rest = ts@.skip(from as int);
    if from == ts.len() {
        proof {
            assert(rest.len() == 0);
        }
        return Ok(());
    }
    let t = ts[from];
    proof {
        assert(rest[0] == t);
    }
    let r1 = resolve_one(reg, pre, t, st, fuel);
    match r1 {
        Err(e) => Err(e),
        Ok(()) => {
            proof {
                assert(rest.subrange(1, rest.len() as int) =~= ts@.skip(from as int + 1));
            }
            let r2 = resolve_many(reg, pre, ts, from + 1, st, fuel);
            r2
        },
    }
}

/// Build the call graph of one target: the minimal ordered sequence of
/// constructor invocations that assembles the types in `targets`, reusing a
/// value wherever the same type is required twice.
///
/// `pre` flags, one per type of the table, the types that are supplied from
/// outside the graph (pre-built singletons, framework-provided request
/// state): those are recorded as external inputs and never expanded.
///
/// The result is exactly the outcome of the ghost resolution model:
/// `UnresolvedType` when a demanded type has no constructor and is not
/// pre-supplied, `DependencyCycle` when a constructor transitively demands
/// its own output, and otherwise a graph whose `order` lists every
/// constructed type once, producers before consumers, ties by first
/// discovery.
pub fn resolve_graph(reg: &Registry, pre: &Vec<bool>, targets: &Vec<usize>) -> (r: Result<
    CallGraph,
    ResolutionError,
>)
    requires
        reg.wf(),
        pre@.len() == reg.n_types(),
        reg.n_types() < u64::MAX,
    ensures
        ({
            let (mst, me) = resolve_targets_m(reg.model(), pre_set(pre@), targets@);
            match r {
                Ok(g) => {
                    &&& me is None
                    &&& g.targets@ == targets@
                    &&& g.order@ == mst.order
                    &&& g.ext_inputs@ == mst.ext
                },
                Err(e) => me == Some(err_model(e)) && !(err_model(e) is Exhausted),
            }
        }),
{
    let ghost regm = reg.model();
    let ghost prem = pre_set(pre@);
    let n = reg.type_count();
    let mut done: Vec<bool> = Vec::new();
    let mut inprog: Vec<bool> = Vec::new();
    let mut i: usize = 0;
    while i < n
        invariant
            i <= n,
            done@.len() == i,
            inprog@.len() == i,
            forall|j: int| 0 <= j < i ==> !done@[j] && !inprog@[j],
        decreases n - i,
    {
        done.push(false);
        inprog.push(false);
        i = i + 1;
    }
    let mut st = WalkState { stack: Vec::new(), inprog, done, order: Vec::new(), ext: Vec::new() };
    proof {
        assert(walk_model(st).done =~= empty_state().done);
        assert(walk_model(st) =~= empty_state());
        assert(regm.len() == reg.n_types());
        lemma_targets_no_exhaust(regm, prem, targets@);
    }
    let fuel: u64 = (n as u64) + 1;
    proof {
        assert(fuel as nat == full_fuel(regm));
        assert(targets@.skip(0) =~= targets@);
    }
    let r = resolve_many(reg, pre, targets, 0, &mut st, fuel);
    match r {
        Err(e) => Err(e),
        Ok(()) => {
            let WalkState { order, ext, .. } = st;
            Ok(CallGraph { targets: clone_ids(targets), order, ext_inputs: ext })
        },
    }
}

} // verus!
