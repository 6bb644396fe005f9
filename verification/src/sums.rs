//! How the counts and sums over the handle space move when one entry of a
//! table changes.

use crate::model::{share, total_weight, weight_at};
use crate::store::{edges_below, edges_counted, links_at, links_between, nodes_below, nodes_counted};
use crate::types::{Edge, NodeView};
use vstd::prelude::*;

verus! {

/// Two link tables that agree everywhere but at `e`.
pub open spec fn differ_at(m1: Map<u32, Edge>, m2: Map<u32, Edge>, e: u32) -> bool {
    forall|x: u32|
        x != e ==> (#[trigger] m1.contains_key(x) == m2.contains_key(x)) && (m1.contains_key(x)
            ==> m1[x] == m2[x])
}

/// 1 where the condition holds, 0 where it does not.
pub open spec fn one_if(cond: bool) -> int {
    if cond {
        1
    } else {
        0
    }
}

/// Where one entry of the link table changes, the weight summed at a node
/// changes by the difference of the shares of that entry.
pub proof fn lemma_weight_at_change(m1: Map<u32, Edge>, m2: Map<u32, Edge>, n: u32, e: u32, k: nat)
    requires
        differ_at(m1, m2, e),
        k <= 0x1_0000_0000,
    ensures
        weight_at(m2, n, k) == weight_at(m1, n, k) + (if e < k {
            share(m2, e, n) - share(m1, e, n)
        } else {
            0
        }),
    decreases k,
{
    if k > 0 {
        lemma_weight_at_change(m1, m2, n, e, (k - 1) as nat);
        let x = (k - 1) as u32;
        if x != e {
            assert(m1.contains_key(x) == m2.contains_key(x));
        }
    }
}

/// The weight summed over `k` handles is at most `k` times twice the
/// largest weight, in either direction.
pub proof fn lemma_weight_at_bound(m: Map<u32, Edge>, n: u32, k: nat)
    ensures
        -(k * 0x1_0000_0000_0000_0000) <= weight_at(m, n, k) <= k * 0x1_0000_0000_0000_0000,
    decreases k,
{
    if k > 0 {
        lemma_weight_at_bound(m, n, (k - 1) as nat);
        assert(k * 0x1_0000_0000_0000_0000 == (k - 1) * 0x1_0000_0000_0000_0000
            + 0x1_0000_0000_0000_0000) by (nonlinear_arith);
    }
}

/// A node that no edge touches has nothing to sum.
pub proof fn lemma_weight_at_untouched(m: Map<u32, Edge>, n: u32, k: nat)
    requires
        forall|x: u32| #[trigger] m.contains_key(x) ==> !m[x].touches(n),
    ensures
        weight_at(m, n, k) == 0,
    decreases k,
{
    if k > 0 {
        lemma_weight_at_untouched(m, n, (k - 1) as nat);
    }
}

/// Where one entry of the link table changes, the count of edges changes
/// by whether that entry came or went.
pub proof fn lemma_edges_counted_change(m1: Map<u32, Edge>, m2: Map<u32, Edge>, e: u32, k: nat)
    requires
        differ_at(m1, m2, e),
        k <= 0x1_0000_0000,
    ensures
        edges_counted(m2, k) == edges_counted(m1, k) + (if e < k {
            one_if(m2.contains_key(e)) - one_if(m1.contains_key(e))
        } else {
            0
        }),
        edges_counted(m1, k) <= k,
    decreases k,
{
    if k > 0 {
        lemma_edges_counted_change(m1, m2, e, (k - 1) as nat);
        let x = (k - 1) as u32;
        if x != e {
            assert(m1.contains_key(x) == m2.contains_key(x));
        }
    }
}

/// Where one entry of the link table changes, the count of edges at a
/// node changes by whether that entry touches the node before and after.
pub proof fn lemma_links_at_change(m1: Map<u32, Edge>, m2: Map<u32, Edge>, a: u32, e: u32, k: nat)
    requires
        differ_at(m1, m2, e),
        k <= 0x1_0000_0000,
    ensures
        links_at(m2, a, k) == links_at(m1, a, k) + (if e < k {
            one_if(m2.contains_key(e) && m2[e].touches(a)) - one_if(
                m1.contains_key(e) && m1[e].touches(a),
            )
        } else {
            0
        }),
        links_at(m1, a, k) <= k,
    decreases k,
{
    if k > 0 {
        lemma_links_at_change(m1, m2, a, e, (k - 1) as nat);
        let x = (k - 1) as u32;
        if x != e {
            assert(m1.contains_key(x) == m2.contains_key(x));
        }
    }
}

/// Where one entry of the link table changes, the count of edges between
/// two nodes changes by whether that entry joins them before and after.
pub proof fn lemma_links_between_change(
    m1: Map<u32, Edge>,
    m2: Map<u32, Edge>,
    a: u32,
    b: u32,
    e: u32,
    k: nat,
)
    requires
        differ_at(m1, m2, e),
        k <= 0x1_0000_0000,
    ensures
        links_between(m2, a, b, k) == links_between(m1, a, b, k) + (if e < k {
            one_if(m2.contains_key(e) && m2[e].joins(a, b)) - one_if(
                m1.contains_key(e) && m1[e].joins(a, b),
            )
        } else {
            0
        }),
        links_between(m1, a, b, k) <= k,
    decreases k,
{
    if k > 0 {
        lemma_links_between_change(m1, m2, a, b, e, (k - 1) as nat);
        let x = (k - 1) as u32;
        if x != e {
            assert(m1.contains_key(x) == m2.contains_key(x));
        }
    }
}

/// Two node tables with the same live handles count the same.
pub proof fn lemma_nodes_counted_same(m1: Map<u32, NodeView>, m2: Map<u32, NodeView>, k: nat)
    requires
        forall|x: u32| #[trigger] m1.contains_key(x) == m2.contains_key(x),
        k <= 0x1_0000_0000,
    ensures
        nodes_counted(m2, k) == nodes_counted(m1, k),
        nodes_counted(m1, k) <= k,
    decreases k,
{
    if k > 0 {
        lemma_nodes_counted_same(m1, m2, (k - 1) as nat);
        assert(m1.contains_key((k - 1) as u32) == m2.contains_key((k - 1) as u32));
    }
}

/// One more live handle counts one more.
pub proof fn lemma_nodes_counted_insert(m: Map<u32, NodeView>, h: u32, node: NodeView, k: nat)
    requires
        !m.contains_key(h),
        k <= 0x1_0000_0000,
    ensures
        nodes_counted(m.insert(h, node), k) == nodes_counted(m, k) + one_if(h < k),
    decreases k,
{
    if k > 0 {
        lemma_nodes_counted_insert(m, h, node, (k - 1) as nat);
    }
}

/// One live handle less counts one less.
pub proof fn lemma_nodes_counted_remove(m: Map<u32, NodeView>, h: u32, k: nat)
    requires
        m.contains_key(h),
        k <= 0x1_0000_0000,
    ensures
        nodes_counted(m.remove(h), k) == nodes_counted(m, k) - one_if(h < k),
    decreases k,
{
    if k > 0 {
        lemma_nodes_counted_remove(m, h, (k - 1) as nat);
    }
}

/// The total weight of a list reads only the entries that the list names.
pub proof fn lemma_total_weight_same(m1: Map<u32, Edge>, m2: Map<u32, Edge>, list: Seq<u32>)
    requires
        forall|i: int| 0 <= i < list.len() ==> m1[#[trigger] list[i]] == m2[list[i]],
    ensures
        total_weight(m1, list) == total_weight(m2, list),
    decreases list.len(),
{
    if list.len() > 0 {
        lemma_total_weight_same(m1, m2, list.drop_last());
    }
}

/// One more entry in a list adds its weight to the total.
pub proof fn lemma_total_weight_push(m: Map<u32, Edge>, list: Seq<u32>, e: u32)
    ensures
        total_weight(m, list.push(e)) == total_weight(m, list) + m[e].weight,
{
    assert(list.push(e).drop_last() =~= list);
}

/// A live edge between `a` and `b` is counted.
pub proof fn lemma_links_between_witness(m: Map<u32, Edge>, a: u32, b: u32, e: u32, k: nat)
    requires
        m.contains_key(e),
        m[e].joins(a, b),
        e < k,
    ensures
        links_between(m, a, b, k) >= 1,
    decreases k,
{
    if k - 1 > e {
        lemma_links_between_witness(m, a, b, e, (k - 1) as nat);
    }
}

/// Where no live edge runs between `a` and `b`, none is counted.
pub proof fn lemma_links_between_none(m: Map<u32, Edge>, a: u32, b: u32, k: nat)
    requires
        forall|x: u32| #[trigger] m.contains_key(x) ==> !m[x].joins(a, b),
    ensures
        links_between(m, a, b, k) == 0,
    decreases k,
{
    if k > 0 {
        lemma_links_between_none(m, a, b, (k - 1) as nat);
    }
}

/// The edges at `n` that do not also touch another node `h` are those at
/// `n` less those between `n` and `h`.
pub proof fn lemma_links_at_without(m: Map<u32, Edge>, n: u32, h: u32, k: nat)
    requires
        n != h,
    ensures
        links_at(
            Map::new(|e: u32| m.contains_key(e) && !m[e].touches(h), |e: u32| m[e]),
            n,
            k,
        ) == links_at(m, n, k) - links_between(m, n, h, k),
    decreases k,
{
    if k > 0 {
        lemma_links_at_without(m, n, h, (k - 1) as nat);
    }
}

/// The listing of the edges below `k` is as long as their count.
pub proof fn lemma_edges_below_len(m: Map<u32, Edge>, k: nat)
    ensures
        edges_below(m, k).len() == edges_counted(m, k),
        edges_below(m, k).len() <= k,
    decreases k,
{
    if k > 0 {
        lemma_edges_below_len(m, (k - 1) as nat);
    }
}

/// The listing of the nodes below `k` holds every live node below `k`.
pub proof fn lemma_nodes_below_covers(m: Map<u32, NodeView>, h: u32, k: nat)
    requires
        m.contains_key(h),
        h < k,
    ensures
        nodes_below(m, k).contains(m[h]),
    decreases k,
{
    let rest = nodes_below(m, (k - 1) as nat);
    if k - 1 > h {
        lemma_nodes_below_covers(m, h, (k - 1) as nat);
        let i = choose|i: int| 0 <= i < rest.len() && rest[i] == m[h];
        if m.contains_key((k - 1) as u32) {
            assert(rest.push(m[(k - 1) as u32])[i] == m[h]);
        }
    } else {
        assert(rest.push(m[h])[rest.len() as int] == m[h]);
    }
}

/// The listing of the nodes below `k` holds live nodes only.
pub proof fn lemma_nodes_below_live(m: Map<u32, NodeView>, k: nat, i: int)
    requires
        0 <= i < nodes_below(m, k).len(),
    ensures
        exists|h: u32| #[trigger] m.contains_key(h) && m[h] == nodes_below(m, k)[i],
    decreases k,
{
    if k > 0 {
        let rest = nodes_below(m, (k - 1) as nat);
        if i < rest.len() {
            lemma_nodes_below_live(m, (k - 1) as nat, i);
        } else {
            assert(m.contains_key((k - 1) as u32));
        }
    }
}

/// The edges that do not touch `h` are all edges less those at `h`.
pub proof fn lemma_edges_counted_without(m: Map<u32, Edge>, h: u32, k: nat)
    ensures
        edges_counted(Map::new(|e: u32| m.contains_key(e) && !m[e].touches(h), |e: u32| m[e]), k)
            == edges_counted(m, k) - links_at(m, h, k),
    decreases k,
{
    if k > 0 {
        lemma_edges_counted_without(m, h, (k - 1) as nat);
    }
}

} // verus!
