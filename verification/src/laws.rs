//! What holds of the topology whatever is done with it.

use crate::model::{swap_removed, total_weight, GraphView};
use crate::outcomes::{add_edge_outcome, add_node_outcome, remove_edge_outcome};
use crate::store::{edges_counted, handle_limit, handle_space, links_at, nodes_counted};
use crate::sums::{
    differ_at, lemma_edges_counted_change, lemma_edges_counted_without, lemma_links_at_change,
    lemma_links_at_without, lemma_nodes_counted_insert, lemma_nodes_counted_remove,
    lemma_nodes_counted_same, lemma_total_weight_push, lemma_total_weight_same,
};
use crate::types::{Edge, GraphError, NodeView};
use crate::validity::{
    lemma_joined_iff_listed, lemma_list_counts_links, lemma_with_link_valid, lemma_with_node_valid,
};
use vstd::prelude::*;
use vstd::seq_lib::seq_to_set_is_finite;
use vstd::set_lib::lemma_len_subset;

verus! {

/// The state after step `i` is what one call of `add_node` with the key
/// `names[i]` makes of the state before it.
pub open spec fn adds_at(steps: Seq<GraphView>, names: Seq<Seq<char>>, i: int) -> bool {
    exists|r: Result<u32, GraphError>| #[trigger]
        add_node_outcome(steps[i], names[i], steps[i + 1], r)
}

/// `steps` are the states that a graph goes through, from the empty graph
/// on, as `add_node` is called with each of `names` in turn.
pub open spec fn adds_in_turn(steps: Seq<GraphView>, names: Seq<Seq<char>>) -> bool {
    &&& steps.len() == names.len() + 1
    &&& steps[0] == GraphView::empty()
    &&& forall|i: int| 0 <= i < names.len() ==> #[trigger] adds_at(steps, names, i)
}

/// After the first `i` keys the graph holds exactly the distinct keys
/// among them.
proof fn lemma_adds_prefix(steps: Seq<GraphView>, names: Seq<Seq<char>>, i: int)
    requires
        adds_in_turn(steps, names),
        names.to_set().len() < handle_limit(),
        0 <= i <= names.len(),
    ensures
        steps[i].valid(),
        steps[i].index.dom() == names.take(i).to_set(),
        steps[i].order() == names.take(i).to_set().len(),
    decreases i,
{
    broadcast use vstd::set::group_set_axioms;

    if i == 0 {
        assert(names.take(0).to_set() =~= Set::<Seq<char>>::empty());
        assert(steps[0].index.dom() =~= Set::<Seq<char>>::empty());
        lemma_no_nodes(handle_space());
    } else {
        lemma_adds_prefix(steps, names, i - 1);
        let before = steps[i - 1];
        let after = steps[i];
        let name = names[i - 1];
        let shorter = names.take(i - 1);
        let longer = names.take(i);
        assert(longer =~= shorter.push(name));
        assert(longer.to_set() =~= shorter.to_set().insert(name)) by {
            assert forall|x: Seq<char>| longer.to_set().contains(x) == shorter.to_set().insert(
                name,
            ).contains(x) by {
                if longer.contains(x) {
                    let k = choose|k: int| 0 <= k < longer.len() && longer[k] == x;
                    if k < i - 1 {
                        assert(shorter[k] == x);
                    }
                }
                if shorter.contains(x) {
                    let k = choose|k: int| 0 <= k < shorter.len() && shorter[k] == x;
                    assert(longer[k] == x);
                }
                if x == name {
                    assert(longer[i - 1] == x);
                }
            }
        }
        seq_to_set_is_finite(shorter);
        seq_to_set_is_finite(names);
        assert(shorter.to_set().subset_of(names.to_set())) by {
            assert forall|x: Seq<char>| shorter.to_set().contains(x) implies names.to_set().contains(
                x,
            ) by {
                let k = choose|k: int| 0 <= k < shorter.len() && shorter[k] == x;
                assert(names[k] == x);
            }
        }
        lemma_len_subset(shorter.to_set(), names.to_set());
        assert(adds_at(steps, names, i - 1));
        let r = choose|r: Result<u32, GraphError>| #[trigger]
            add_node_outcome(steps[i - 1], names[i - 1], steps[i - 1 + 1], r);
        match r {
            Ok(h) => {
                lemma_with_node_valid(before, h, name);
                lemma_nodes_counted_insert(
                    before.nodes,
                    h,
                    NodeView { name, weighted_degree: 0, position: None },
                    handle_space(),
                );
                assert(after.index.dom() =~= before.index.dom().insert(name));
            },
            Err(why) => {
                assert(before.index.contains_key(name));
                assert(before.index.dom().insert(name) =~= before.index.dom());
            },
        }
    }
}

/// An empty node table counts no node.
proof fn lemma_no_nodes(k: nat)
    ensures
        nodes_counted(Map::<u32, NodeView>::empty(), k) == 0,
    decreases k,
{
    if k > 0 {
        lemma_no_nodes((k - 1) as nat);
    }
}

/// However often and in whatever order keys are added to an empty graph,
/// the order of the graph is the number of distinct keys among them, as
/// long as that number is within the handle space.
pub proof fn lemma_order_counts_distinct_keys(steps: Seq<GraphView>, names: Seq<Seq<char>>)
    requires
        adds_in_turn(steps, names),
        names.to_set().len() < handle_limit(),
    ensures
        steps.last().valid(),
        steps.last().order() == names.to_set().len(),
{
    lemma_adds_prefix(steps, names, names.len() as int);
    assert(names.take(names.len() as int) =~= names);
}

/// A new edge of weight `w` between `u` and `v` adds `w` to the weight
/// that is reported for the pair, stands alone at the ordinal after the
/// edges that were there, and adds exactly `2 * w` to the weighted degree
/// of each of the two nodes. Where it is the only edge of the pair, the
/// weight reported for the pair is `w`.
pub proof fn lemma_add_edge_weight(
    before: GraphView,
    u: Seq<char>,
    v: Seq<char>,
    weight: i64,
    after: GraphView,
)
    requires
        before.valid(),
        add_edge_outcome(before, u, v, weight, after, Ok(())),
    ensures
        after.valid(),
        after.link_weight(u, v, 0, false) == before.link_weight(u, v, 0, false) + weight,
        after.link_weight(u, v, before.list(before.index[u], before.index[v]).len() as int, true)
            == weight,
        before.list(before.index[u], before.index[v]).len() == 0 ==> after.link_weight(
            u,
            v,
            0,
            false,
        ) == weight,
        after.nodes[after.index[u]].weighted_degree == before.nodes[before.index[u]].weighted_degree
            + 2 * weight,
        after.nodes[after.index[v]].weighted_degree == before.nodes[before.index[v]].weighted_degree
            + 2 * weight,
{
    let a = before.index[u];
    let b = before.index[v];
    let e = choose|e: u32|
        !before.edges.contains_key(e) && after == #[trigger] before.with_link(e, a, b, weight);
    lemma_with_link_valid(before, e, a, b, weight);
    let list = before.list(a, b);
    assert(after.list(a, b) == list.push(e));
    assert forall|i: int| 0 <= i < list.len() implies before.edges[#[trigger] list[i]]
        == after.edges[list[i]] by {
        assert(before.edges.contains_key(before.parallel[(a, b)][i]));
    }
    lemma_total_weight_same(before.edges, after.edges, list);
    lemma_total_weight_push(after.edges, list, e);
}

/// Removal undoes addition: where an edge is added between `u` and `v`
/// and the edge at its ordinal is then removed, the graph is what it was,
/// and so are the weighted degrees of both nodes.
pub proof fn lemma_remove_undoes_add(
    before: GraphView,
    u: Seq<char>,
    v: Seq<char>,
    weight: i64,
    between: GraphView,
    after: GraphView,
)
    requires
        before.valid(),
        add_edge_outcome(before, u, v, weight, between, Ok(())),
        remove_edge_outcome(
            between,
            u,
            v,
            before.list(before.index[u], before.index[v]).len() as int,
            false,
            after,
            Ok(()),
        ),
    ensures
        after == before,
        after.nodes[after.index[u]].weighted_degree
            == before.nodes[before.index[u]].weighted_degree,
        after.nodes[after.index[v]].weighted_degree
            == before.nodes[before.index[v]].weighted_degree,
{
    let a = before.index[u];
    let b = before.index[v];
    let e = choose|e: u32|
        !before.edges.contains_key(e) && between == #[trigger] before.with_link(e, a, b, weight);
    let list = before.list(a, b);
    let i = list.len() as int;
    lemma_joined_iff_listed(before, a, b);
    assert(between.list(a, b) == list.push(e));
    assert(swap_removed(list.push(e), i) =~= list);
    assert(after.edges =~= before.edges);
    assert(after.nodes =~= before.nodes);
    assert(after.parallel =~= before.parallel) by {
        if list.len() == 0 {
            assert(!before.parallel.contains_key((a, b)));
            assert(!before.parallel.contains_key((b, a)));
        } else {
            assert(before.parallel.contains_key((a, b)));
            assert(before.parallel.contains_key((b, a)));
        }
    }
}

/// Both orderings of a pair of nodes are indexed alike: the same edges,
/// at the same ordinals.
pub proof fn lemma_index_symmetric(g: GraphView, a: u32, b: u32)
    requires
        g.valid(),
    ensures
        g.parallel.contains_key((a, b)) == g.parallel.contains_key((b, a)),
        g.list(a, b) == g.list(b, a),
        g.list(a, b).to_set() == g.list(b, a).to_set(),
{
    lemma_joined_iff_listed(g, a, b);
    lemma_joined_iff_listed(g, b, a);
}

/// Once a node is removed no edge at it is left, and every other node has
/// lost as many edges as ran between it and the removed node.
pub proof fn lemma_remove_node_degrees(g: GraphView, h: u32, n: u32)
    requires
        g.valid(),
        g.nodes.contains_key(h),
        n != h,
    ensures
        g.without_node(h).degree(n) == g.degree(n) - g.list(n, h).len(),
        forall|e: u32| #[trigger]
            g.without_node(h).edges.contains_key(e) ==> !g.without_node(h).edges[e].touches(h),
        g.without_node(h).degree(h) == 0,
{
    lemma_links_at_without(g.edges, n, h, handle_space());
    lemma_list_counts_links(g, n, h);
    lemma_no_links_at(g.without_node(h).edges, h, handle_space());
}

/// A node that no edge touches has degree 0.
proof fn lemma_no_links_at(edges: Map<u32, Edge>, h: u32, k: nat)
    requires
        forall|e: u32| #[trigger] edges.contains_key(e) ==> !edges[e].touches(h),
    ensures
        links_at(edges, h, k) == 0,
    decreases k,
{
    if k > 0 {
        lemma_no_links_at(edges, h, (k - 1) as nat);
    }
}

/// The sum of a sequence of weights.
pub open spec fn sum_of(weights: Seq<i64>) -> int
    decreases weights.len(),
{
    if weights.len() == 0 {
        0
    } else {
        sum_of(weights.drop_last()) + weights.last()
    }
}

/// `steps` are the states that a graph goes through as `add_edge` puts an
/// edge of each of `weights` in turn between `u` and `v`.
pub open spec fn links_in_turn(
    steps: Seq<GraphView>,
    u: Seq<char>,
    v: Seq<char>,
    weights: Seq<i64>,
) -> bool {
    &&& steps.len() == weights.len() + 1
    &&& forall|i: int|
        0 <= i < weights.len() ==> #[trigger] add_edge_outcome(
            steps[i],
            u,
            v,
            weights[i],
            steps[i + 1],
            Ok(()),
        )
}

/// After the first `i` edges the list of the pair holds them by ordinal,
/// each with its weight.
proof fn lemma_links_prefix(
    steps: Seq<GraphView>,
    u: Seq<char>,
    v: Seq<char>,
    weights: Seq<i64>,
    i: int,
)
    requires
        steps[0].valid(),
        steps[0].index.contains_key(u),
        steps[0].index.contains_key(v),
        steps[0].list(steps[0].index[u], steps[0].index[v]).len() == 0,
        links_in_turn(steps, u, v, weights),
        0 <= i <= weights.len(),
    ensures
        steps[i].valid(),
        steps[i].index == steps[0].index,
        steps[i].list(steps[0].index[u], steps[0].index[v]).len() == i,
        total_weight(steps[i].edges, steps[i].list(steps[0].index[u], steps[0].index[v]))
            == sum_of(weights.take(i)),
        forall|k: int|
            0 <= k < i ==> steps[i].edges[#[trigger] steps[i].list(
                steps[0].index[u],
                steps[0].index[v],
            )[k]].weight == weights[k],
    decreases i,
{
    let a = steps[0].index[u];
    let b = steps[0].index[v];
    if i == 0 {
        assert(weights.take(0) =~= Seq::<i64>::empty());
    } else {
        lemma_links_prefix(steps, u, v, weights, i - 1);
        let before = steps[i - 1];
        let after = steps[i];
        let weight = weights[i - 1];
        assert(add_edge_outcome(steps[i - 1], u, v, weights[i - 1], steps[i - 1 + 1], Ok(())));
        let e = choose|e: u32|
            !before.edges.contains_key(e) && after == #[trigger] before.with_link(e, a, b, weight);
        lemma_with_link_valid(before, e, a, b, weight);
        let list = before.list(a, b);
        assert(after.list(a, b) == list.push(e));
        assert forall|k: int| 0 <= k < list.len() implies before.edges[#[trigger] list[k]]
            == after.edges[list[k]] by {
            assert(before.edges.contains_key(before.parallel[(a, b)][k]));
        }
        lemma_total_weight_same(before.edges, after.edges, list);
        lemma_total_weight_push(after.edges, list, e);
        assert(weights.take(i).drop_last() =~= weights.take(i - 1));
    }
}

/// Where `k` edges with the weights `w1..wk` are added between two nodes
/// that had none, the weight reported for the pair is the sum of the
/// `wi`, and the weight reported for ordinal `i` alone is `wi`.
pub proof fn lemma_parallel_weights(
    steps: Seq<GraphView>,
    u: Seq<char>,
    v: Seq<char>,
    weights: Seq<i64>,
)
    requires
        steps[0].valid(),
        steps[0].index.contains_key(u),
        steps[0].index.contains_key(v),
        steps[0].list(steps[0].index[u], steps[0].index[v]).len() == 0,
        links_in_turn(steps, u, v, weights),
    ensures
        steps.last().valid(),
        steps.last().link_weight(u, v, 0, false) == sum_of(weights),
        forall|i: int|
            0 <= i < weights.len() ==> #[trigger] steps.last().link_weight(u, v, i, true)
                == weights[i],
{
    lemma_links_prefix(steps, u, v, weights, weights.len() as int);
    assert(weights.take(weights.len() as int) =~= weights);
}

/// A new node makes the order one more and leaves the size as it is.
pub proof fn lemma_counts_after_add_node(g: GraphView, h: u32, name: Seq<char>)
    requires
        !g.nodes.contains_key(h),
    ensures
        g.with_node(h, name).order() == g.order() + 1,
        g.with_node(h, name).size() == g.size(),
{
    lemma_nodes_counted_insert(
        g.nodes,
        h,
        NodeView { name, weighted_degree: 0, position: None },
        handle_space(),
    );
}

/// A new edge makes the size one more, gives each of its two nodes one
/// edge more (one in all, where they are the same node), and leaves the
/// order and the degree of every other node as they are.
pub proof fn lemma_counts_after_add_edge(g: GraphView, e: u32, a: u32, b: u32, weight: i64, n: u32)
    requires
        !g.edges.contains_key(e),
    ensures
        g.with_link(e, a, b, weight).size() == g.size() + 1,
        g.with_link(e, a, b, weight).order() == g.order(),
        g.with_link(e, a, b, weight).degree(n) == g.degree(n) + (if n == a || n == b {
            1int
        } else {
            0int
        }),
{
    let r = g.with_link(e, a, b, weight);
    assert(differ_at(g.edges, r.edges, e));
    lemma_edges_counted_change(g.edges, r.edges, e, handle_space());
    lemma_links_at_change(g.edges, r.edges, n, e, handle_space());
    lemma_nodes_counted_same(g.nodes, r.nodes, handle_space());
}

/// A new weight for an edge changes no count.
pub proof fn lemma_counts_after_update(g: GraphView, e: u32, weight: i64, n: u32)
    requires
        g.edges.contains_key(e),
    ensures
        g.reweighted(e, weight).size() == g.size(),
        g.reweighted(e, weight).order() == g.order(),
        g.reweighted(e, weight).degree(n) == g.degree(n),
{
    let r = g.reweighted(e, weight);
    assert(differ_at(g.edges, r.edges, e));
    lemma_edges_counted_change(g.edges, r.edges, e, handle_space());
    lemma_links_at_change(g.edges, r.edges, n, e, handle_space());
    lemma_nodes_counted_same(g.nodes, r.nodes, handle_space());
}

/// Taking one edge out makes the size one less, takes one edge from each
/// of its two nodes (one in all, where they are the same node), and
/// leaves the order and the degree of every other node as they are.
pub proof fn lemma_counts_after_remove_edge(g: GraphView, a: u32, b: u32, i: int, n: u32)
    requires
        g.valid(),
        0 <= i < g.list(a, b).len(),
    ensures
        g.without_link(a, b, i).size() == g.size() - 1,
        g.without_link(a, b, i).order() == g.order(),
        g.without_link(a, b, i).degree(n) == g.degree(n) - (if n == a || n == b {
            1int
        } else {
            0int
        }),
{
    let r = g.without_link(a, b, i);
    let e = g.list(a, b)[i];
    assert(g.edges.contains_key(g.parallel[(a, b)][i]));
    assert(differ_at(g.edges, r.edges, e));
    lemma_edges_counted_change(g.edges, r.edges, e, handle_space());
    lemma_links_at_change(g.edges, r.edges, n, e, handle_space());
    lemma_nodes_counted_same(g.nodes, r.nodes, handle_space());
}

/// Taking a node out makes the order one less and the size less by the
/// number of edges that were at the node.
pub proof fn lemma_counts_after_remove_node(g: GraphView, h: u32)
    requires
        g.nodes.contains_key(h),
    ensures
        g.without_node(h).order() == g.order() - 1,
        g.without_node(h).size() == g.size() - g.degree(h),
{
    let r = g.without_node(h);
    lemma_nodes_counted_remove(g.nodes, h, handle_space());
    assert forall|x: u32| #[trigger] g.nodes.remove(h).contains_key(x) == r.nodes.contains_key(
        x,
    ) by {}
    lemma_nodes_counted_same(g.nodes.remove(h), r.nodes, handle_space());
    lemma_edges_counted_without(g.edges, h, handle_space());
}

/// Taking a list of parallel edges out of the link table takes as many
/// from the count of all edges and from the count at each of the two nodes.
proof fn lemma_counts_without_list(edges: Map<u32, Edge>, list: Seq<u32>, a: u32, b: u32, n: u32)
    requires
        list.no_duplicates(),
        forall|i: int|
            0 <= i < list.len() ==> edges.contains_key(#[trigger] list[i]) && edges[list[i]].joins(
                a,
                b,
            ),
    ensures
        edges_counted(edges.remove_keys(list.to_set()), handle_space()) == edges_counted(
            edges,
            handle_space(),
        ) - list.len(),
        links_at(edges.remove_keys(list.to_set()), n, handle_space()) == links_at(
            edges,
            n,
            handle_space(),
        ) - (if n == a || n == b {
            list.len() as int
        } else {
            0int
        }),
    decreases list.len(),
{
    if list.len() == 0 {
        assert(edges.remove_keys(list.to_set()) =~= edges);
    } else {
        let pre = list.drop_last();
        let last = list.last();
        lemma_counts_without_list(edges, pre, a, b, n);
        let m1 = edges.remove_keys(pre.to_set());
        let m2 = edges.remove_keys(list.to_set());
        assert(!pre.contains(last)) by {
            if pre.contains(last) {
                let j = choose|j: int| 0 <= j < pre.len() && pre[j] == last;
                assert(list[j] == list[list.len() - 1]);
            }
        }
        assert forall|x: u32| x != last implies (#[trigger] m1.contains_key(x) == m2.contains_key(
            x,
        )) && (m1.contains_key(x) ==> m1[x] == m2[x]) by {
            if pre.contains(x) {
                let j = choose|j: int| 0 <= j < pre.len() && pre[j] == x;
                assert(list[j] == x);
            }
            if list.contains(x) {
                let j = choose|j: int| 0 <= j < list.len() && list[j] == x;
                assert(pre[j] == x);
            }
        }
        assert(list.contains(last)) by {
            assert(list[list.len() - 1] == last);
        }
        assert(m1.contains_key(last) && m1[last] == edges[last]);
        assert(!m2.contains_key(last));
        lemma_edges_counted_change(m1, m2, last, handle_space());
        lemma_links_at_change(m1, m2, n, last, handle_space());
    }
}

/// Taking every edge between two nodes out makes the size less by their
/// number, takes as many edges from each of the two nodes, and leaves the
/// order and the degree of every other node as they are.
pub proof fn lemma_counts_after_remove_edges(g: GraphView, a: u32, b: u32, n: u32)
    requires
        g.valid(),
    ensures
        g.without_links(a, b).size() == g.size() - g.list(a, b).len(),
        g.without_links(a, b).order() == g.order(),
        g.without_links(a, b).degree(n) == g.degree(n) - (if n == a || n == b {
            g.list(a, b).len() as int
        } else {
            0int
        }),
{
    let r = g.without_links(a, b);
    let list = g.list(a, b);
    if g.parallel.contains_key((a, b)) {
        assert forall|i: int| 0 <= i < list.len() implies g.edges.contains_key(#[trigger] list[i])
            && g.edges[list[i]].joins(a, b) by {
            assert(g.edges.contains_key(g.parallel[(a, b)][i]));
        }
    }
    lemma_counts_without_list(g.edges, list, a, b, n);
    lemma_nodes_counted_same(g.nodes, r.nodes, handle_space());
}

} // verus!
