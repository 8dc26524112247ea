//! Stable binding names for the application-state container. Each singleton
//! of the state graph receives the name of its type as a stem; when an
//! earlier singleton already took the same stem, a disambiguating index (the
//! number of earlier holders) is added. Names are derived from the graph
//! order alone, so independent compilations of one blueprint agree on them.

use vstd::prelude::*;
use crate::registry::Registry;

verus! {

/// The field name a singleton occupies in the generated state container.
pub struct BindingName {
    /// The type the binding holds.
    pub ty: usize,
    /// The type's name.
    pub stem: String,
    /// `Some(k)` when `k` earlier bindings of the same graph share the stem.
    pub disambiguator: Option<usize>,
}

/// How many of the first `upto` stems equal `name`.
pub open spec fn count_stem(stems: Seq<Seq<char>>, upto: int, name: Seq<char>) -> nat
    decreases upto,
{
    if upto <= 0 {
        0
    } else {
        count_stem(stems, upto - 1, name) + if stems[upto - 1] == name {
            1nat
        } else {
            0nat
        }
    }
}

/// The stem sequence of a graph order: the name of each type.
pub open spec fn stems_of(names: Seq<Seq<char>>, order: Seq<usize>) -> Seq<Seq<char>> {
    order.map(|i: int, t: usize| names[t as int])
}

/// The binding of position `i` of the order, pinned.
pub open spec fn binding_ok(
    names: Seq<Seq<char>>,
    order: Seq<usize>,
    i: int,
    b: BindingName,
) -> bool {
    let stems = stems_of(names, order);
    let cnt = count_stem(stems, i, stems[i]);
    &&& b.ty == order[i]
    &&& b.stem@ == stems[i]
    &&& b.disambiguator == if cnt == 0 {
        Option::<usize>::None
    } else {
        Option::Some(cnt as usize)
    }
}

/// Assign every type of a state-graph order its stable binding name.
pub fn assign_bindings(reg: &Registry, order: &Vec<usize>) -> (r: Vec<BindingName>)
    requires
        reg.wf(),
        forall|i: int| 0 <= i < order@.len() ==> order@[i] < reg.n_types(),
    ensures
        r@.len() == order@.len(),
        forall|i: int|
            0 <= i < order@.len() ==> binding_ok(reg.names(), order@, i, #[trigger] r@[i]),
{
    let ghost stems = stems_of(reg.names(), order@);
    let mut out: Vec<BindingName> = Vec::new();
    let n = order.len();
    let mut i: usize = 0;
    while i < n
        invariant
            reg.wf(),
            forall|k: int| 0 <= k < order@.len() ==> order@[k] < reg.n_types(),
            n == order@.len(),
            i <= n,
            stems == stems_of(reg.names(), order@),
            out@.len() == i,
            forall|k: int|
                0 <= k < i ==> binding_ok(reg.names(), order@, k, #[trigger] out@[k]),
        decreases n - i,
    {
        let name = reg.name_of(order[i]);
        proof {
            assert(stems[i as int] == reg.names()[order@[i as int] as int]);
        }
        let mut cnt: usize = 0;
        let mut j: usize = 0;
        while j < i
            invariant
                reg.wf(),
                forall|k: int| 0 <= k < order@.len() ==> order@[k] < reg.n_types(),
                n == order@.len(),
                i < n,
                j <= i,
                stems == stems_of(reg.names(), order@),
                name@ == stems[i as int],
                cnt <= j,
                cnt == count_stem(stems, j as int, stems[i as int]),
            decreases i - j,
        {
            let other = reg.name_of(order[j]);
            proof {
                assert(stems[j as int] == reg.names()[order@[j as int] as int]);
            }
            if other == name {
                cnt = cnt + 1;
            }
            j = j + 1;
        }
        let disambiguator = if cnt == 0 {
            None
        } else {
            Some(cnt)
        };
        out.push(BindingName { ty: order[i], stem: name, disambiguator });
        i = i + 1;
    }
    out
}

/// Counting a stem over a longer prefix never counts less, and strictly more
/// once a position holding that stem is passed.
pub proof fn lemma_count_stem_grows(stems: Seq<Seq<char>>, a: int, b: int, name: Seq<char>)
    requires
        0 <= a < b <= stems.len(),
        stems[a] == name,
    ensures
        count_stem(stems, b, name) > count_stem(stems, a, name),
    decreases b,
{
    if b == a + 1 {
    } else {
        lemma_count_stem_grows(stems, a, b - 1, name);
    }
}

/// A stem occurs at most once per position counted.
pub proof fn lemma_count_stem_le(stems: Seq<Seq<char>>, upto: int, name: Seq<char>)
    requires
        0 <= upto,
    ensures
        count_stem(stems, upto, name) <= upto,
    decreases upto,
{
    if upto > 0 {
        lemma_count_stem_le(stems, upto - 1, name);
    }
}

/// No two bindings of one state graph carry the same name: distinct stems,
/// or the same stem with distinct disambiguating indices.
pub proof fn lemma_bindings_distinct(
    names: Seq<Seq<char>>,
    order: Seq<usize>,
    bs: Seq<BindingName>,
)
    requires
        bs.len() == order.len(),
        bs.len() <= usize::MAX,
        forall|i: int| 0 <= i < order.len() ==> binding_ok(names, order, i, #[trigger] bs[i]),
    ensures
        forall|i: int, j: int|
            0 <= i < j < bs.len() ==> !(bs[i].stem@ == bs[j].stem@ && bs[i].disambiguator
                == bs[j].disambiguator),
{
    let stems = stems_of(names, order);
    assert forall|i: int, j: int| 0 <= i < j < bs.len() implies !(bs[i].stem@ == bs[j].stem@
        && bs[i].disambiguator == bs[j].disambiguator) by {
        if bs[i].stem@ == bs[j].stem@ {
            assert(stems[i] == stems[j]);
            lemma_count_stem_grows(stems, i, j, stems[j]);
            lemma_count_stem_le(stems, i, stems[i]);
            lemma_count_stem_le(stems, j, stems[j]);
            let ci = count_stem(stems, i, stems[i]);
            let cj = count_stem(stems, j, stems[j]);
            assert(cj > ci);
            assert(cj > 0);
        }
    }
}

} // verus!
