//! The router table builder: routes receive dense ids in declaration order,
//! and the id-to-path mapping is bidirectional, since later stages need both
//! directions. The mapping is held in a bimap, behind trusted contracts over
//! the ghost map of its pairs.

use vstd::prelude::*;
use bimap::BiHashMap;
use crate::registry::{BlueprintError, Callable};

verus! {

#[verifier::external_type_specification]
#[verifier::external_body]
#[verifier::reject_recursive_types(L)]
#[verifier::reject_recursive_types(R)]
#[verifier::reject_recursive_types(LS)]
#[verifier::reject_recursive_types(RS)]
pub struct ExBiHashMap<L, R, LS, RS>(BiHashMap<L, R, LS, RS>);

/// The pairs a route bimap holds, as the map from route id to path. A bimap
/// never holds two pairs sharing either side, so the map determines the pair
/// set and is injective.
pub uninterp spec fn route_pairs(m: BiHashMap<u32, String>) -> Map<u32, Seq<char>>;

/// Relies on bimap::BiHashMap::insert_no_overwrite: the pair is added only
/// when neither its id nor its path is already present; on a collision of
/// either side the bimap is left unchanged.
#[verifier::external_body]
fn bi_insert(m: &mut BiHashMap<u32, String>, id: u32, path: String) -> (r: bool)
    ensures
        r == !(route_pairs(*old(m)).dom().contains(id) || exists|k: u32|
            #[trigger] route_pairs(*old(m)).dom().contains(k) && route_pairs(*old(m))[k]
                == path@),
        r ==> route_pairs(*final(m)) == route_pairs(*old(m)).insert(id, path@),
        !r ==> route_pairs(*final(m)) == route_pairs(*old(m)),
{
    m.insert_no_overwrite(id, path).is_ok()
}

/// Relies on bimap::BiHashMap::get_by_right: the id of the pair whose path
/// equals the given one, if such a pair is present.
#[verifier::external_body]
fn bi_get_by_right(m: &BiHashMap<u32, String>, path: &String) -> (r: Option<u32>)
    ensures
        match r {
            Some(id) => route_pairs(*m).dom().contains(id) && route_pairs(*m)[id] == path@,
            None => forall|k: u32|
                #[trigger] route_pairs(*m).dom().contains(k) ==> route_pairs(*m)[k] != path@,
        },
{
    m.get_by_right(path).copied()
}

/// Relies on bimap::BiHashMap::get_by_left: the path of the pair with the
/// given id, if such a pair is present.
#[verifier::external_body]
fn bi_get_by_left<'a>(m: &'a BiHashMap<u32, String>, id: u32) -> (r: Option<&'a String>)
    ensures
        match r {
            Some(p) => route_pairs(*m).dom().contains(id) && p@ == route_pairs(*m)[id],
            None => !route_pairs(*m).dom().contains(id),
        },
{
    m.get_by_left(&id)
}

/// A route of the blueprint: a path pattern and the callable that handles it.
pub struct Route {
    pub path: String,
    pub handler: Callable,
}

/// The bidirectional mapping from dense route ids to route paths. Ids are
/// assigned in declaration order; the domain is exactly `0 .. n_routes`.
pub struct RouteTable {
    table: BiHashMap<u32, String>,
    count: usize,
}

/// The map of a table with no routes.
pub open spec fn no_routes() -> Map<u32, Seq<char>> {
    Map::empty()
}

impl RouteTable {
    /// Relies on bimap::BiHashMap::new: a fresh bimap holds no pairs.
    #[verifier::external_body]
    fn empty() -> (r: RouteTable)
        ensures
            r.route_map() == no_routes(),
            r.n_routes() == 0,
    {
        RouteTable { table: BiHashMap::new(), count: 0 }
    }

    /// The mapping from route id to path.
    pub closed spec fn route_map(&self) -> Map<u32, Seq<char>> {
        route_pairs(self.table)
    }

    pub closed spec fn n_routes(&self) -> nat {
        self.count as nat
    }

    /// The table is a bijection between the ids `0 .. n_routes` and the
    /// paths, with the path of id `i` pinned by the route sequence.
    pub open spec fn wf_for(&self, paths: Seq<Seq<char>>) -> bool {
        &&& self.n_routes() == paths.len()
        &&& forall|k: u32|
            (#[trigger] self.route_map().dom().contains(k)) <==> (k as int) < paths.len()
        &&& forall|i: int|
            0 <= i < paths.len() ==> self.route_map()[#[trigger] (i as u32)] == paths[i]
    }

    /// The path registered under a route id.
    pub fn path_of(&self, id: u32) -> (r: Option<&String>)
        ensures
            match r {
                Some(p) => self.route_map().dom().contains(id) && p@ == self.route_map()[id],
                None => !self.route_map().dom().contains(id),
            },
    {
        bi_get_by_left(&self.table, id)
    }

    /// The route id registered for a path.
    pub fn id_of(&self, path: &String) -> (r: Option<u32>)
        ensures
            match r {
                Some(id) => self.route_map().dom().contains(id) && self.route_map()[id] == path@,
                None => forall|k: u32|
                    #[trigger] self.route_map().dom().contains(k) ==> self.route_map()[k]
                        != path@,
            },
    {
        bi_get_by_right(&self.table, path)
    }

    /// The number of routes.
    pub fn len(&self) -> (r: usize)
        ensures
            r == self.n_routes(),
    {
        self.count
    }
}

/// Assign each route a dense id, in declaration order. Two routes with the
/// identical path string are a build-time error naming that path; distinct
/// paths always succeed and the resulting table maps id `i` to the path of
/// the `i`-th route.
pub fn assign_ids(routes: &Vec<Route>) -> (r: Result<RouteTable, BlueprintError>)
    requires
        routes@.len() < u32::MAX,
    ensures
        match r {
            Ok(t) => {
                &&& t.wf_for(routes@.map(|i: int, rt: Route| rt.path@))
                &&& forall|i: int, j: int|
                    0 <= i < j < routes@.len() ==> routes@[i].path@ != routes@[j].path@
            },
            Err(e) => {
                &&& e matches BlueprintError::DuplicateRoute { path }
                &&& exists|i: int, j: int|
                    0 <= i < j < routes@.len() && routes@[i].path@ == routes@[j].path@
                        && path@ == routes@[j].path@
            },
        },
{
    let ghost paths = routes@.map(|i: int, rt: Route| rt.path@);
    let mut out = RouteTable::empty();
    let n = routes.len();
    let mut i: usize = 0;
    while i < n
        invariant
            n == routes@.len(),
            n < u32::MAX,
            i <= n,
            paths == routes@.map(|k: int, rt: Route| rt.path@),
            forall|k: u32| (#[trigger] route_pairs(out.table).dom().contains(k)) <==> (k as int) < i,
            forall|j: int| 0 <= j < i ==> route_pairs(out.table)[#[trigger] (j as u32)] == paths[j],
            forall|a: int, b: int| 0 <= a < b < i ==> paths[a] != paths[b],
        decreases n - i,
    {
        let path = &routes[i].path;
        let ghost pre_pairs = route_pairs(out.table);
        match bi_get_by_right(&out.table, path) {
            Some(prev) => {
                proof {
                    assert(((prev as int) as u32) == prev);
                    assert(route_pairs(out.table)[(prev as int) as u32] == paths[prev as int]);
                    assert(paths[prev as int] == path@);
                    assert(paths[i as int] == path@);
                    assert(exists|a: int, b: int|
                        0 <= a < b < routes@.len() && routes@[a].path@ == routes@[b].path@
                            && path@ == routes@[b].path@) by {
                        assert((prev as int) < (i as int) && (i as int) < routes@.len()
                            && routes@[prev as int].path@ == routes@[i as int].path@
                            && path@ == routes@[i as int].path@);
                    }
                }
                return Err(BlueprintError::DuplicateRoute { path: path.clone() });
            },
            None => {
                let ok = bi_insert(&mut out.table, i as u32, path.clone());
                proof {
                    assert(!pre_pairs.dom().contains(i as u32));
                    assert(!(exists|k: u32|
                        (#[trigger] pre_pairs.dom().contains(k)) && pre_pairs[k] == path@));
                    assert(ok);
                    assert(route_pairs(out.table) == pre_pairs.insert(i as u32, path@));
                }
                if !ok {
                    proof {
                        assert(false);
                    }
                    return Err(BlueprintError::DuplicateRoute { path: path.clone() });
                }
                proof {
                    assert forall|k: u32|
                        (#[trigger] route_pairs(out.table).dom().contains(k)) <==> (k as int) < i
                            + 1 by {
                        assert(route_pairs(out.table).dom().contains(k) <==> (pre_pairs.dom().contains(
                            k,
                        ) || k == i as u32));
                    }
                    assert forall|j: int| 0 <= j < i + 1 implies route_pairs(
                        out.table,
                    )[#[trigger] (j as u32)] == paths[j] by {
                        if j < i {
                            assert(j as u32 != i as u32);
                            assert(pre_pairs.dom().contains(j as u32));
                        }
                    }
                    assert forall|a: int, b: int| 0 <= a < b < i + 1 implies paths[a]
                        != paths[b] by {
                        if b == i {
                            assert(pre_pairs.dom().contains(a as u32));
                            assert(pre_pairs[a as u32] != path@);
                        }
                    }
                }
            },
        }
        i = i + 1;
    }
    out.count = n;
    proof {
        assert(routes@.map(|i: int, rt: Route| rt.path@) =~= paths);
        assert forall|a: int, b: int| 0 <= a < b < routes@.len() implies routes@[a].path@
            != routes@[b].path@ by {
            assert(routes@.map(|i: int, rt: Route| rt.path@)[a] == routes@[a].path@);
            assert(routes@.map(|i: int, rt: Route| rt.path@)[b] == routes@[b].path@);
            assert(paths[a] != paths[b]);
        }
    }
    Ok(out)
}

} // verus!
