//! The scope classifier: a singleton is built once per process and shared,
//! so its constructor may not depend, directly or through other singletons,
//! on a value that is rebuilt per request. Checking every edge of a resolved
//! call graph enforces the transitive rule, because every intermediate type
//! on an offending chain is itself a node of the graph.

use vstd::prelude::*;
use crate::registry::{CtorModel, Registry, Scope};
use crate::model::{ctor_inputs, registered};
use crate::resolve::CallGraph;

verus! {

/// A singleton constructor depends on per-request state.
#[derive(Debug)]
pub enum ScopeError {
    /// The constructor of `ty`, declared `Singleton`, consumes `dependency`,
    /// whose effective scope is not `Singleton`.
    ScopeViolation { ty: usize, dependency: usize },
}

/// The effective scope of a type: the scope its constructor declares; a type
/// with no constructor is supplied from outside the graph per request.
pub open spec fn effective_scope(reg: Seq<Option<CtorModel>>, t: usize) -> Scope {
    if registered(reg, t) {
        match reg[t as int] {
            Some(c) => c.scope,
            None => Scope::RequestScoped,
        }
    } else {
        Scope::RequestScoped
    }
}

/// An edge from a singleton constructor to a non-singleton input: the one
/// direction the scope rule forbids.
pub open spec fn violating_edge(reg: Seq<Option<CtorModel>>, t: usize, u: usize) -> bool {
    &&& registered(reg, t)
    &&& effective_scope(reg, t) == Scope::Singleton
    &&& ctor_inputs(reg, t).contains(u)
    &&& effective_scope(reg, u) != Scope::Singleton
}

/// No constructor of the graph violates the scope rule.
pub open spec fn scopes_ok(reg: Seq<Option<CtorModel>>, order: Seq<usize>) -> bool {
    forall|i: int, u: usize|
        0 <= i < order.len() ==> !(#[trigger] violating_edge(reg, order[i], u))
}

/// Check every edge of a resolved graph: succeeds exactly when no singleton
/// constructor in the graph consumes a value of narrower scope, and otherwise
/// names an offending edge.
pub fn check_scopes(reg: &Registry, g: &CallGraph) -> (r: Result<(), ScopeError>)
    requires
        reg.wf(),
    ensures
        match r {
            Ok(()) => scopes_ok(reg.model(), g.order@),
            Err(e) => {
                &&& e matches ScopeError::ScopeViolation { ty, dependency }
                    && violating_edge(reg.model(), ty, dependency) && g.order@.contains(ty)
            },
        },
{
    let ghost regm = reg.model();
    let n = g.order.len();
    let mut i: usize = 0;
    while i < n
        invariant
            reg.wf(),
            regm == reg.model(),
            n == g.order@.len(),
            i <= n,
            forall|j: int, u: usize| 0 <= j < i ==> !(#[trigger] violating_edge(regm, g.order@[j], u)),
        decreases n - i,
    {
        let t = g.order[i];
        let is_singleton = match reg.scope_of(t) {
            Some(Scope::Singleton) => true,
            _ => false,
        };
        if is_singleton {
            match reg.inputs_of(t) {
                None => {
                    proof {
                        assert(false);
                    }
                },
                Some(inputs) => {
                    let m = inputs.len();
                    let mut k: usize = 0;
                    while k < m
                        invariant
                            reg.wf(),
                            regm == reg.model(),
                            m == inputs@.len(),
                            k <= m,
                            registered(regm, t),
                            effective_scope(regm, t) == Scope::Singleton,
                            inputs@ == ctor_inputs(regm, t),
                            i < g.order@.len(),
                            t == g.order@[i as int],
                            forall|kk: int|
                                0 <= kk < k ==> effective_scope(regm, #[trigger] inputs@[kk])
                                    == Scope::Singleton,
                        decreases m - k,
                    {
                        let u = inputs[k];
                        let dep_singleton = match reg.scope_of(u) {
                            Some(Scope::Singleton) => true,
                            _ => false,
                        };
                        if !dep_singleton {
                            proof {
                                assert(ctor_inputs(regm, t).contains(u)) by {
                                    assert(inputs@[k as int] == u);
                                }
                                assert(g.order@.contains(t)) by {
                                    assert(g.order@[i as int] == t);
                                }
                            }
                            return Err(ScopeError::ScopeViolation { ty: t, dependency: u });
                        }
                        k = k + 1;
                    }
                    proof {
                        assert forall|u: usize| !violating_edge(regm, t, u) by {
                            if ctor_inputs(regm, t).contains(u) {
                                let kk = choose|kk: int|
                                    0 <= kk < inputs@.len() && inputs@[kk] == u;
                                assert(effective_scope(regm, u) == Scope::Singleton);
                            }
                        }
                    }
                },
            }
        } else {
            proof {
                assert forall|u: usize| !violating_edge(regm, t, u) by {
                    if registered(regm, t) {
                        assert(effective_scope(regm, t) != Scope::Singleton);
                    }
                }
            }
        }
        i = i + 1;
        proof {
            assert forall|j: int, u: usize| 0 <= j < i implies !(#[trigger] violating_edge(
                regm,
                g.order@[j],
                u,
            )) by {
                if j == i - 1 {
                    assert(g.order@[j] == t);
                }
            }
        }
    }
    Ok(())
}

} // verus!
