//! The dispatcher synthesizer: for each route id, a description of which
//! handler to invoke and, for each of its declared inputs, whether to borrow
//! the named application-state binding or to thread through the value built
//! by that handler's own call graph. This table, with the linearized
//! per-handler construction steps, is the abstract program handed to the
//! external code-emission backend.

use vstd::prelude::*;
use crate::bindings::BindingName;
use crate::router::Route;

verus! {

/// How one declared input of a handler is supplied.
pub enum ArgWiring {
    /// Borrow the application-state binding at this index of the binding
    /// table.
    SingletonBinding { binding: usize },
    /// Thread through the value of this type built fresh by the handler's
    /// own call graph for the incoming request.
    RequestScoped { ty: usize },
}

/// One dispatch entry: invoke the handler of route `route` when the router
/// returns `route_id`, wiring each declared input as `args` says.
pub struct DispatchEntry {
    pub route_id: u32,
    pub route: usize,
    pub args: Vec<ArgWiring>,
}

/// The per-request control-flow table, indexed by route id.
pub struct DispatchTable {
    pub entries: Vec<DispatchEntry>,
}

/// The wiring of one input of type `t`, pinned: the first binding holding
/// `t` when one exists, the request-scoped value otherwise.
pub open spec fn wiring_ok(bindings: Seq<BindingName>, t: usize, a: ArgWiring) -> bool {
    match a {
        ArgWiring::SingletonBinding { binding } => {
            &&& binding < bindings.len()
            &&& bindings[binding as int].ty == t
            &&& forall|b: int| 0 <= b < binding ==> bindings[b].ty != t
        },
        ArgWiring::RequestScoped { ty } => {
            &&& ty == t
            &&& forall|b: int| 0 <= b < bindings.len() ==> bindings[b].ty != t
        },
    }
}

/// The dispatch entry of route `i`, pinned.
pub open spec fn entry_ok(
    bindings: Seq<BindingName>,
    routes: Seq<Route>,
    i: int,
    e: DispatchEntry,
) -> bool {
    &&& e.route_id == i as u32
    &&& e.route == i
    &&& e.args.len() == routes[i].handler.inputs@.len()
    &&& forall|k: int|
        0 <= k < e.args@.len() ==> wiring_ok(
            bindings,
            routes[i].handler.inputs@[k],
            #[trigger] e.args@[k],
        )
}

/// Build the dispatch table: one entry per route, in route-id order, each
/// input wired to the first application-state binding of its type or, when
/// no binding holds it, to the handler graph's own request-scoped value.
pub fn synthesize(routes: &Vec<Route>, bindings: &Vec<BindingName>) -> (r: DispatchTable)
    requires
        routes@.len() < u32::MAX,
    ensures
        r.entries@.len() == routes@.len(),
        forall|i: int|
            0 <= i < routes@.len() ==> entry_ok(bindings@, routes@, i, #[trigger] r.entries@[i]),
{
    let mut entries: Vec<DispatchEntry> = Vec::new();
    let n = routes.len();
    let mut i: usize = 0;
    while i < n
        invariant
            n == routes@.len(),
            n < u32::MAX,
            i <= n,
            entries@.len() == i,
            forall|j: int|
                0 <= j < i ==> entry_ok(bindings@, routes@, j, #[trigger] entries@[j]),
        decreases n - i,
    {
        let inputs = &routes[i].handler.inputs;
        let m = inputs.len();
        let mut args: Vec<ArgWiring> = Vec::new();
        let mut k: usize = 0;
        while k < m
            invariant
                m == inputs@.len(),
                k <= m,
                args@.len() == k,
                forall|kk: int|
                    0 <= kk < k ==> wiring_ok(bindings@, inputs@[kk], #[trigger] args@[kk]),
            decreases m - k,
        {
            let t = inputs[k];
            let mut found: Option<usize> = None;
            let nb = bindings.len();
            let mut b: usize = 0;
            while found.is_none() && b < nb
                invariant
                    nb == bindings@.len(),
                    b <= nb,
                    forall|bb: int| 0 <= bb < b ==> bindings@[bb].ty != t,
                    match found {
                        Some(bi) => bi == b && b < nb && bindings@[bi as int].ty == t,
                        None => true,
                    },
                decreases nb - b + (if found is None { 1int } else { 0int }),
            {
                if bindings[b].ty == t {
                    found = Some(b);
                } else {
                    b = b + 1;
                }
            }
            match found {
                Some(bi) => {
                    args.push(ArgWiring::SingletonBinding { binding: bi });
                },
                None => {
                    args.push(ArgWiring::RequestScoped { ty: t });
                },
            }
            k = k + 1;
        }
        entries.push(DispatchEntry { route_id: i as u32, route: i, args });
        i = i + 1;
    }
    DispatchTable { entries }
}

} // verus!
