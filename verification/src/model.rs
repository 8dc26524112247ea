//! The ghost model of call-graph resolution.
//!
//! Resolution is specified as a recursive function over a ghost image of the
//! registry. The executable resolver in `resolve` returns exactly what this
//! model computes, so every downstream property is a theorem about the model.

use vstd::prelude::*;
use vstd::seq_lib::*;
use vstd::set_lib::*;
use crate::registry::CtorModel;

verus! {

/// State threaded through one resolution pass.
#[verifier::ext_equal]
pub ghost struct ResolveState {
    /// Types whose expansion is in progress, root side first: the active
    /// depth-first path. Guards against cycles.
    pub stack: Seq<usize>,
    /// Types fully dealt with: constructed earlier in `order`, or recorded as
    /// externally supplied in `ext`.
    pub done: Set<usize>,
    /// Constructed types in evaluation order: producers before consumers,
    /// ties broken by first discovery.
    pub order: Seq<usize>,
    /// Externally supplied types (pre-built singletons, framework inputs) in
    /// first-discovery order.
    pub ext: Seq<usize>,
}

/// How one resolution pass can fail. `Exhausted` is the model's fuel running
/// out; with the fuel the resolver uses it is unreachable (see
/// `lemma_resolve_no_exhaust`), so no executable error corresponds to it.
pub ghost enum ModelErr {
    Unresolved { ty: usize, requested_by: Option<usize> },
    Cycle { path: Seq<usize> },
    Exhausted,
}

pub open spec fn empty_state() -> ResolveState {
    ResolveState {
        stack: Seq::empty(),
        done: Set::empty(),
        order: Seq::empty(),
        ext: Seq::empty(),
    }
}

/// Whether a constructor is registered for `t`.
pub open spec fn registered(reg: Seq<Option<CtorModel>>, t: usize) -> bool {
    t < reg.len() && reg[t as int] is Some
}

/// The inputs of `t`'s registered constructor.
pub open spec fn ctor_inputs(reg: Seq<Option<CtorModel>>, t: usize) -> Seq<usize> {
    match reg[t as int] {
        Some(c) => c.inputs,
        None => Seq::empty(),
    }
}

/// Resolve one required type. A type already dealt with is reused, never
/// recomputed; a type on the active path is a dependency cycle; a type that
/// is pre-supplied becomes an external input; an unregistered type fails,
/// naming the constructor that demanded it; otherwise the constructor's own
/// inputs are resolved first and the type is then appended to the order.
pub open spec fn resolve_ty_m(
    reg: Seq<Option<CtorModel>>,
    pre: Set<usize>,
    t: usize,
    st: ResolveState,
    fuel: nat,
) -> (ResolveState, Option<ModelErr>)
    decreases fuel, 0nat,
{
    if st.done.contains(t) {
        (st, None)
    } else if st.stack.contains(t) {
        (st, Some(ModelErr::Cycle { path: st.stack.push(t) }))
    } else if pre.contains(t) {
        (ResolveState { done: st.done.insert(t), ext: st.ext.push(t), ..st }, None)
    } else if !registered(reg, t) {
        (
            st,
            Some(
                ModelErr::Unresolved {
                    ty: t,
                    requested_by: if st.stack.len() == 0 {
                        None
                    } else {
                        Some(st.stack.last())
                    },
                },
            ),
        )
    } else if fuel == 0 {
        (st, Some(ModelErr::Exhausted))
    } else {
        let opened = ResolveState { stack: st.stack.push(t), ..st };
        let (sub, e) = resolve_list_m(reg, pre, ctor_inputs(reg, t), opened, (fuel - 1) as nat);
        if e is Some {
            (sub, e)
        } else {
            (
                ResolveState {
                    stack: st.stack,
                    done: sub.done.insert(t),
                    order: sub.order.push(t),
                    ext: sub.ext,
                },
                None,
            )
        }
    }
}

/// Resolve a list of required types left to right, stopping at the first
/// failure.
pub open spec fn resolve_list_m(
    reg: Seq<Option<CtorModel>>,
    pre: Set<usize>,
    ts: Seq<usize>,
    st: ResolveState,
    fuel: nat,
) -> (ResolveState, Option<ModelErr>)
    decreases fuel, ts.len() + 1,
{
    if ts.len() == 0 {
        (st, None)
    } else {
        let (st1, e) = resolve_ty_m(reg, pre, ts[0], st, fuel);
        if e is Some {
            (st1, e)
        } else {
            resolve_list_m(reg, pre, ts.subrange(1, ts.len() as int), st1, fuel)
        }
    }
}

/// The fuel that makes the model total on every input the resolver meets:
/// one more than the number of types, so that fuel can run out only on a
/// depth-first path longer than the whole type table.
pub open spec fn full_fuel(reg: Seq<Option<CtorModel>>) -> nat {
    reg.len() + 1
}

/// One whole resolution pass: the targets resolved left to right from a
/// fresh state.
pub open spec fn resolve_targets_m(
    reg: Seq<Option<CtorModel>>,
    pre: Set<usize>,
    targets: Seq<usize>,
) -> (ResolveState, Option<ModelErr>) {
    resolve_list_m(reg, pre, targets, empty_state(), full_fuel(reg))
}

/// The stack is an acyclic path of registered types.
pub open spec fn stack_ok(reg: Seq<Option<CtorModel>>, st: ResolveState) -> bool {
    &&& st.stack.no_duplicates()
    &&& forall|i: int| 0 <= i < st.stack.len() ==> registered(reg, #[trigger] st.stack[i])
}

/// A sequence of distinct indices below `n` is no longer than `n`.
pub proof fn lemma_distinct_below(s: Seq<usize>, n: nat)
    requires
        s.no_duplicates(),
        forall|i: int| 0 <= i < s.len() ==> s[i] < n,
    ensures
        s.len() <= n,
{
    let si = s.map_values(|x: usize| x as int);
    assert(si.no_duplicates()) by {
        assert forall|i: int, j: int|
            0 <= i < si.len() && 0 <= j < si.len() && i != j implies si[i] != si[j] by {
            assert(s[i] != s[j]);
        }
    }
    si.unique_seq_to_set();
    lemma_int_range(0, n as int);
    assert(si.to_set().subset_of(set_int_range(0, n as int))) by {
        assert forall|x: int| si.to_set().contains(x) implies set_int_range(
            0,
            n as int,
        ).contains(x) by {
            let k = choose|k: int| 0 <= k < si.len() && si[k] == x;
            assert(s[k] < n);
        }
    }
    lemma_len_subset(si.to_set(), set_int_range(0, n as int));
}

/// With fuel exceeding the free room on the stack, the model never runs out
/// of fuel, and success leaves the active path as it found it.
pub proof fn lemma_resolve_no_exhaust(
    reg: Seq<Option<CtorModel>>,
    pre: Set<usize>,
    t: usize,
    st: ResolveState,
    fuel: nat,
)
    requires
        stack_ok(reg, st),
        fuel + st.stack.len() > reg.len(),
    ensures
        resolve_ty_m(reg, pre, t, st, fuel).1 != Some(ModelErr::Exhausted),
        resolve_ty_m(reg, pre, t, st, fuel).1 is None ==> resolve_ty_m(
            reg,
            pre,
            t,
            st,
            fuel,
        ).0.stack == st.stack,
    decreases fuel, 0nat,
{
    if st.done.contains(t) || st.stack.contains(t) || pre.contains(t) || !registered(reg, t) {
        // no recursion in these branches
    } else if fuel == 0 {
        lemma_distinct_below(st.stack, reg.len());
        assert(false);
    } else {
        let opened = ResolveState { stack: st.stack.push(t), ..st };
        assert(stack_ok(reg, opened)) by {
            assert forall|i: int, j: int|
                0 <= i < opened.stack.len() && 0 <= j < opened.stack.len() && i != j
                implies opened.stack[i] != opened.stack[j] by {
                if i < st.stack.len() && j < st.stack.len() {
                } else if i < st.stack.len() {
                    assert(!st.stack.contains(t));
                    assert(st.stack[i] != t);
                } else {
                    assert(!st.stack.contains(t));
                    assert(st.stack[j] != t);
                }
            }
        }
        lemma_resolve_list_no_exhaust(reg, pre, ctor_inputs(reg, t), opened, (fuel - 1) as nat);
    }
}

/// List form of `lemma_resolve_no_exhaust`.
pub proof fn lemma_resolve_list_no_exhaust(
    reg: Seq<Option<CtorModel>>,
    pre: Set<usize>,
    ts: Seq<usize>,
    st: ResolveState,
    fuel: nat,
)
    requires
        stack_ok(reg, st),
        fuel + st.stack.len() > reg.len(),
    ensures
        resolve_list_m(reg, pre, ts, st, fuel).1 != Some(ModelErr::Exhausted),
        resolve_list_m(reg, pre, ts, st, fuel).1 is None ==> resolve_list_m(
            reg,
            pre,
            ts,
            st,
            fuel,
        ).0.stack == st.stack,
    decreases fuel, ts.len() + 1,
{
    if ts.len() == 0 {
    } else {
        lemma_resolve_no_exhaust(reg, pre, ts[0], st, fuel);
        let (st1, e) = resolve_ty_m(reg, pre, ts[0], st, fuel);
        if e is None {
            assert(stack_ok(reg, st1));
            lemma_resolve_list_no_exhaust(reg, pre, ts.subrange(1, ts.len() as int), st1, fuel);
        }
    }
}

/// Whether every constructed type of the state is registered.
pub open spec fn order_registered(reg: Seq<Option<CtorModel>>, st: ResolveState) -> bool {
    forall|i: int| 0 <= i < st.order.len() ==> registered(reg, #[trigger] st.order[i])
}

/// Resolution only ever appends registered types to the evaluation order.
pub proof fn lemma_resolve_order_registered(
    reg: Seq<Option<CtorModel>>,
    pre: Set<usize>,
    t: usize,
    st: ResolveState,
    fuel: nat,
)
    requires
        order_registered(reg, st),
    ensures
        order_registered(reg, resolve_ty_m(reg, pre, t, st, fuel).0),
    decreases fuel, 0nat,
{
    if st.done.contains(t) || st.stack.contains(t) || pre.contains(t) || !registered(reg, t)
        || fuel == 0 {
    } else {
        let opened = ResolveState { stack: st.stack.push(t), ..st };
        lemma_resolve_list_order_registered(reg, pre, ctor_inputs(reg, t), opened, (fuel - 1) as nat);
    }
}

/// List form of `lemma_resolve_order_registered`.
pub proof fn lemma_resolve_list_order_registered(
    reg: Seq<Option<CtorModel>>,
    pre: Set<usize>,
    ts: Seq<usize>,
    st: ResolveState,
    fuel: nat,
)
    requires
        order_registered(reg, st),
    ensures
        order_registered(reg, resolve_list_m(reg, pre, ts, st, fuel).0),
    decreases fuel, ts.len() + 1,
{
    if ts.len() == 0 {
    } else {
        lemma_resolve_order_registered(reg, pre, ts[0], st, fuel);
        let (st1, e) = resolve_ty_m(reg, pre, ts[0], st, fuel);
        if e is None {
            lemma_resolve_list_order_registered(reg, pre, ts.subrange(1, ts.len() as int), st1, fuel);
        }
    }
}

/// The structural soundness of a resolution state: each type is constructed
/// at most once (value reuse, never recomputation); external inputs are
/// exactly pre-supplied types, recorded once; everything dealt with is in
/// the order or an external input; and the order is topological, producers
/// before consumers.
pub open spec fn graph_inv(
    reg: Seq<Option<CtorModel>>,
    pre: Set<usize>,
    st: ResolveState,
) -> bool {
    &&& st.order.no_duplicates()
    &&& st.ext.no_duplicates()
    &&& forall|i: int| 0 <= i < st.order.len() ==> st.done.contains(#[trigger] st.order[i])
    &&& forall|i: int|
        0 <= i < st.ext.len() ==> st.done.contains(#[trigger] st.ext[i]) && pre.contains(
            st.ext[i],
        )
    &&& forall|t: usize|
        #[trigger] st.done.contains(t) ==> st.order.contains(t) || st.ext.contains(t)
    &&& forall|i: int, k: int|
        0 <= i < st.order.len() && 0 <= k < ctor_inputs(reg, st.order[i]).len() ==> {
            let u = #[trigger] ctor_inputs(reg, #[trigger] st.order[i])[k];
            pre.contains(u) || exists|j: int| 0 <= j < i && st.order[j] == u
        }
}

/// The active path never holds a finished type.
pub open spec fn stack_fresh(st: ResolveState) -> bool {
    forall|i: int| 0 <= i < st.stack.len() ==> !st.done.contains(#[trigger] st.stack[i])
}

/// Resolving one type preserves structural soundness, only extends the
/// graph, and leaves the type dealt with.
pub proof fn lemma_resolve_sound(
    reg: Seq<Option<CtorModel>>,
    pre: Set<usize>,
    t: usize,
    st: ResolveState,
    fuel: nat,
)
    requires
        graph_inv(reg, pre, st),
        stack_fresh(st),
    ensures
        ({
            let (st1, e) = resolve_ty_m(reg, pre, t, st, fuel);
            e is None ==> {
                &&& graph_inv(reg, pre, st1)
                &&& stack_fresh(st1)
                &&& st1.stack == st.stack
                &&& forall|x: usize| st.done.contains(x) ==> st1.done.contains(x)
                &&& st1.done.contains(t)
                &&& st1.order.len() >= st.order.len() && st1.order.subrange(
                    0,
                    st.order.len() as int,
                ) == st.order
            }
        }),
    decreases fuel, 0nat,
{
    let (st1, e) = resolve_ty_m(reg, pre, t, st, fuel);
    assert(st.order.subrange(0, st.order.len() as int) =~= st.order);
    if st.done.contains(t) || st.stack.contains(t) {
    } else if pre.contains(t) {
        if e is None {
            assert(!st.ext.contains(t)) by {
                if st.ext.contains(t) {
                    let i = choose|i: int| 0 <= i < st.ext.len() && st.ext[i] == t;
                    assert(st.done.contains(t));
                }
            }
            lemma_push_keeps_no_duplicates(st.ext, t);
            let st1 = resolve_ty_m(reg, pre, t, st, fuel).0;
            assert forall|x: usize| st1.done.contains(x) implies st1.order.contains(x)
                || st1.ext.contains(x) by {
                if x == t {
                    assert(st1.ext[st1.ext.len() - 1] == t);
                } else {
                    if st.ext.contains(x) {
                        let j = choose|j: int| 0 <= j < st.ext.len() && st.ext[j] == x;
                        assert(st1.ext[j] == x);
                    }
                }
            }
        }
    } else if !registered(reg, t) || fuel == 0 {
    } else {
        let opened = ResolveState { stack: st.stack.push(t), ..st };
        assert(stack_fresh(opened)) by {
            assert(forall|i: int|
                0 <= i < st.stack.len() ==> opened.stack[i] == st.stack[i]);
        }
        lemma_resolve_list_sound(reg, pre, ctor_inputs(reg, t), opened, (fuel - 1) as nat);
        let (sub, se) = resolve_list_m(reg, pre, ctor_inputs(reg, t), opened, (fuel - 1) as nat);
        if se is None {
            // The type itself was never finished while on the path, so the
            // appended node is fresh.
            assert(sub.stack == opened.stack);
            assert(opened.stack[opened.stack.len() - 1] == t);
            assert(!sub.done.contains(t));
            assert(!sub.order.contains(t)) by {
                if sub.order.contains(t) {
                    let i = choose|i: int| 0 <= i < sub.order.len() && sub.order[i] == t;
                    assert(sub.done.contains(t));
                }
            }
            lemma_push_keeps_no_duplicates(sub.order, t);
            assert(st1.order.subrange(0, st.order.len() as int) =~= st.order) by {
                assert(sub.order.subrange(0, st.order.len() as int) == st.order);
                assert(forall|i: int|
                    0 <= i < st.order.len() ==> st1.order[i] == sub.order[i]);
            }
            // The new node's inputs were all dealt with by the sub-pass.
            assert forall|i: int, k: int|
                0 <= i < st1.order.len() && 0 <= k < ctor_inputs(reg, st1.order[i]).len()
                implies {
                let u = #[trigger] ctor_inputs(reg, #[trigger] st1.order[i])[k];
                pre.contains(u) || exists|j: int| 0 <= j < i && st1.order[j] == u
            } by {
                let u = ctor_inputs(reg, st1.order[i])[k];
                if i < sub.order.len() {
                    assert(st1.order[i] == sub.order[i]);
                    if !pre.contains(u) {
                        let j = choose|j: int| 0 <= j < i && sub.order[j] == u;
                        assert(st1.order[j] == u);
                    }
                } else {
                    assert(st1.order[i] == t);
                    assert(sub.done.contains(u));
                    if !pre.contains(u) {
                        assert(sub.order.contains(u) || sub.ext.contains(u));
                        if sub.ext.contains(u) {
                            let j = choose|j: int| 0 <= j < sub.ext.len() && sub.ext[j] == u;
                            assert(pre.contains(u));
                        }
                        let j = choose|j: int| 0 <= j < sub.order.len() && sub.order[j] == u;
                        assert(st1.order[j] == u);
                    }
                }
            }
            assert(stack_fresh(st1)) by {
                assert(forall|i: int|
                    0 <= i < st1.stack.len() ==> st1.stack[i] == opened.stack[i]
                        && !sub.done.contains(st1.stack[i]));
                assert(forall|i: int| 0 <= i < st1.stack.len() ==> st1.stack[i] != t);
            }
            assert forall|x: usize| st1.done.contains(x) implies st1.order.contains(x)
                || st1.ext.contains(x) by {
                if x == t {
                    assert(st1.order[st1.order.len() - 1] == t);
                } else {
                    assert(sub.done.contains(x));
                    if sub.order.contains(x) {
                        let j = choose|j: int| 0 <= j < sub.order.len() && sub.order[j] == x;
                        assert(st1.order[j] == x);
                    }
                }
            }
        }
    }
}

/// List form of `lemma_resolve_sound`: on success every listed type is dealt
/// with.
pub proof fn lemma_resolve_list_sound(
    reg: Seq<Option<CtorModel>>,
    pre: Set<usize>,
    ts: Seq<usize>,
    st: ResolveState,
    fuel: nat,
)
    requires
        graph_inv(reg, pre, st),
        stack_fresh(st),
    ensures
        ({
            let (st1, e) = resolve_list_m(reg, pre, ts, st, fuel);
            e is None ==> {
                &&& graph_inv(reg, pre, st1)
                &&& stack_fresh(st1)
                &&& st1.stack == st.stack
                &&& forall|x: usize| st.done.contains(x) ==> st1.done.contains(x)
                &&& forall|i: int| 0 <= i < ts.len() ==> st1.done.contains(#[trigger] ts[i])
                &&& st1.order.len() >= st.order.len() && st1.order.subrange(
                    0,
                    st.order.len() as int,
                ) == st.order
            }
        }),
    decreases fuel, ts.len() + 1,
{
    if ts.len() == 0 {
    } else {
        lemma_resolve_sound(reg, pre, ts[0], st, fuel);
        let (sta, e) = resolve_ty_m(reg, pre, ts[0], st, fuel);
        if e is None {
            let rest = ts.subrange(1, ts.len() as int);
            lemma_resolve_list_sound(reg, pre, rest, sta, fuel);
            let (st1, e2) = resolve_list_m(reg, pre, rest, sta, fuel);
            if e2 is None {
                assert(st1.order.subrange(0, st.order.len() as int) =~= st.order) by {
                    assert(sta.order.subrange(0, st.order.len() as int) == st.order);
                    assert(st1.order.subrange(0, sta.order.len() as int) == sta.order);
                    assert(forall|i: int|
                        0 <= i < st.order.len() ==> st1.order[i] == sta.order[i]
                            && sta.order[i] == st.order[i]);
                }
                assert forall|i: int| 0 <= i < ts.len() implies st1.done.contains(
                    #[trigger] ts[i],
                ) by {
                    if i == 0 {
                        assert(sta.done.contains(ts[0]));
                    } else {
                        assert(rest[i - 1] == ts[i]);
                    }
                }
            }
        }
    }
}

/// Pushing a fresh element keeps a sequence duplicate-free.
pub proof fn lemma_push_keeps_no_duplicates(s: Seq<usize>, t: usize)
    requires
        s.no_duplicates(),
        !s.contains(t),
    ensures
        s.push(t).no_duplicates(),
{
    assert forall|i: int, j: int|
        0 <= i < s.push(t).len() && 0 <= j < s.push(t).len() && i != j implies s.push(t)[i]
        != s.push(t)[j] by {
        if i < s.len() && j < s.len() {
        } else if i < s.len() {
            assert(s[i] != t);
        } else {
            assert(s[j] != t);
        }
    }
}

/// What the builder guarantees of every graph it hands back: each type
/// constructed at most once, every target dealt with, external inputs
/// exactly the pre-supplied types met, and the order topological — every
/// input of a node is pre-supplied or produced by an earlier node.
pub proof fn lemma_resolution_sound(
    reg: Seq<Option<CtorModel>>,
    pre: Set<usize>,
    targets: Seq<usize>,
)
    ensures
        ({
            let (st, e) = resolve_targets_m(reg, pre, targets);
            e is None ==> {
                &&& st.order.no_duplicates()
                &&& st.ext.no_duplicates()
                &&& forall|i: int|
                    0 <= i < st.ext.len() ==> pre.contains(#[trigger] st.ext[i])
                &&& forall|i: int|
                    0 <= i < targets.len() ==> st.order.contains(#[trigger] targets[i])
                        || st.ext.contains(targets[i])
                &&& forall|i: int, k: int|
                    0 <= i < st.order.len() && 0 <= k < ctor_inputs(
                        reg,
                        st.order[i],
                    ).len() ==> {
                        let u = #[trigger] ctor_inputs(reg, #[trigger] st.order[i])[k];
                        pre.contains(u) || exists|j: int| 0 <= j < i && st.order[j] == u
                    }
            }
        }),
{
    lemma_resolve_list_sound(reg, pre, targets, empty_state(), full_fuel(reg));
}

/// From a fresh state with the resolver's fuel, resolution never runs out of
/// fuel: every outcome is success, an unresolved type, or a cycle.
pub proof fn lemma_targets_no_exhaust(
    reg: Seq<Option<CtorModel>>,
    pre: Set<usize>,
    targets: Seq<usize>,
)
    ensures
        resolve_targets_m(reg, pre, targets).1 != Some(ModelErr::Exhausted),
{
    lemma_resolve_list_no_exhaust(reg, pre, targets, empty_state(), full_fuel(reg));
}

} // verus!
