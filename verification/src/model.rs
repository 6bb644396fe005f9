//! The topology as a mathematical value: four tables, the invariant that
//! ties them together, and the effect of each mutation on them.

use crate::store::{
    edges_below, edges_counted, handle_space, links_at, nodes_below, nodes_counted,
};
use crate::types::{Edge, GeoPosition, NodeView};
use vstd::prelude::*;

verus! {

/// What an edge with handle `e` adds to the weighted degree of `n`: twice
/// its weight if it has `n` as an endpoint, nothing otherwise. A self-loop
/// counts once.
pub open spec fn share(edges: Map<u32, Edge>, e: u32, n: u32) -> int {
    if edges.contains_key(e) && edges[e].touches(n) {
        2 * edges[e].weight
    } else {
        0
    }
}

/// The shares that the edges with a handle below `k` add to `n`.
pub open spec fn weight_at(edges: Map<u32, Edge>, n: u32, k: nat) -> int
    decreases k,
{
    if k == 0 {
        0
    } else {
        weight_at(edges, n, (k - 1) as nat) + share(edges, (k - 1) as u32, n)
    }
}

/// The weighted degree that a node must carry: twice the weight of every
/// edge that has it as an endpoint.
pub open spec fn weighted_degree_of(edges: Map<u32, Edge>, n: u32) -> int {
    weight_at(edges, n, handle_space())
}

/// The sum of the weights of the edges named in `list`.
pub open spec fn total_weight(edges: Map<u32, Edge>, list: Seq<u32>) -> int
    decreases list.len(),
{
    if list.len() == 0 {
        0
    } else {
        total_weight(edges, list.drop_last()) + edges[list.last()].weight
    }
}

/// A list after the entry at `i` was taken out by moving the last entry
/// into its place: every other entry keeps its ordinal.
pub open spec fn swap_removed(list: Seq<u32>, i: int) -> Seq<u32> {
    list.update(i, list.last()).drop_last()
}

/// The running totals of twice the weight, edge by edge.
pub open spec fn running_totals(edges: Seq<Edge>) -> Seq<int>
    decreases edges.len(),
{
    if edges.len() == 0 {
        Seq::empty()
    } else {
        let before = running_totals(edges.drop_last());
        let last = if before.len() == 0 {
            0
        } else {
            before.last()
        };
        before.push(last + 2 * edges.last().weight)
    }
}

/// The node table with `delta` added to the weighted degree of `a` and of
/// `b` (once, where the two are the same node).
pub open spec fn bumped(nodes: Map<u32, NodeView>, a: u32, b: u32, delta: int) -> Map<u32, NodeView> {
    Map::new(
        |h: u32| nodes.contains_key(h),
        |h: u32|
            if h == a || h == b {
                NodeView { weighted_degree: nodes[h].weighted_degree + delta, ..nodes[h] }
            } else {
                nodes[h]
            },
    )
}

/// A sequence of machine integers as mathematical integers.
pub open spec fn as_ints(totals: Seq<i128>) -> Seq<int> {
    Seq::new(totals.len(), |i: int| totals[i] as int)
}

/// What a graph is, as a mathematical value.
pub struct GraphView {
    /// Node handle to node.
    pub nodes: Map<u32, NodeView>,
    /// Edge handle to edge.
    pub edges: Map<u32, Edge>,
    /// Key to node handle.
    pub index: Map<Seq<char>, u32>,
    /// Ordered pair of node handles to the parallel edges between them, by
    /// ordinal. A pair with no edge has no entry.
    pub parallel: Map<(u32, u32), Seq<u32>>,
}

impl GraphView {
    /// The topology of a graph with no nodes and no edges.
    pub open spec fn empty() -> GraphView {
        GraphView {
            nodes: Map::empty(),
            edges: Map::empty(),
            index: Map::empty(),
            parallel: Map::empty(),
        }
    }

    /// The parallel edges from `a` to `b`, by ordinal; empty where there is
    /// none.
    pub open spec fn list(self, a: u32, b: u32) -> Seq<u32> {
        if self.parallel.contains_key((a, b)) {
            self.parallel[(a, b)]
        } else {
            Seq::empty()
        }
    }

    /// The number of nodes.
    pub open spec fn order(self) -> nat {
        nodes_counted(self.nodes, handle_space())
    }

    /// The number of edges; parallel edges count one each.
    pub open spec fn size(self) -> nat {
        edges_counted(self.edges, handle_space())
    }

    /// The number of edges at `h`; a self-loop counts once.
    pub open spec fn degree(self, h: u32) -> nat {
        links_at(self.edges, h, handle_space())
    }

    /// Every key names one node, and every node is named by its key.
    pub open spec fn index_agrees(self) -> bool {
        &&& forall|name: Seq<char>| #[trigger]
            self.index.contains_key(name) ==> self.nodes.contains_key(self.index[name])
                && self.nodes[self.index[name]].name == name
        &&& forall|h: u32| #[trigger]
            self.nodes.contains_key(h) ==> self.index.contains_key(self.nodes[h].name)
                && self.index[self.nodes[h].name] == h
    }

    /// Both orderings of a pair hold the same list.
    pub open spec fn pairs_symmetric(self) -> bool {
        forall|a: u32, b: u32| #[trigger]
            self.parallel.contains_key((a, b)) ==> self.parallel.contains_key((b, a))
                && self.parallel[(b, a)] == self.parallel[(a, b)]
    }

    /// A list is never empty, names no edge twice, and names only live
    /// edges that run between the two nodes of its pair.
    pub open spec fn pairs_sound(self) -> bool {
        &&& forall|a: u32, b: u32| #[trigger]
            self.parallel.contains_key((a, b)) ==> self.parallel[(a, b)].len() > 0
                && self.parallel[(a, b)].no_duplicates()
        &&& forall|a: u32, b: u32, i: int|
            self.parallel.contains_key((a, b)) && 0 <= i < self.parallel[(a, b)].len()
                ==> self.edges.contains_key(#[trigger] self.parallel[(a, b)][i])
                && self.edges[self.parallel[(a, b)][i]].joins(a, b)
    }

    /// Every live edge joins two live nodes and is named in the list of
    /// its pair.
    pub open spec fn edges_indexed(self) -> bool {
        forall|e: u32| #[trigger]
            self.edges.contains_key(e) ==> self.nodes.contains_key(self.edges[e].u)
                && self.nodes.contains_key(self.edges[e].v) && self.list(
                self.edges[e].u,
                self.edges[e].v,
            ).contains(e)
    }

    /// Every node carries the weighted degree that its edges give it.
    pub open spec fn degrees_agree(self) -> bool {
        forall|h: u32| #[trigger]
            self.nodes.contains_key(h) ==> self.nodes[h].weighted_degree == weighted_degree_of(
                self.edges,
                h,
            )
    }

    /// The invariant of the topology.
    pub open spec fn valid(self) -> bool {
        &&& self.index_agrees()
        &&& self.pairs_symmetric()
        &&& self.pairs_sound()
        &&& self.edges_indexed()
        &&& self.degrees_agree()
    }

    /// The topology once a node with no links was stored under `h`.
    pub open spec fn with_node(self, h: u32, name: Seq<char>) -> GraphView {
        GraphView {
            nodes: self.nodes.insert(h, NodeView { name, weighted_degree: 0, position: None }),
            index: self.index.insert(name, h),
            ..self
        }
    }

    /// The topology once the position of `h` was set.
    pub open spec fn with_position(self, h: u32, position: Option<GeoPosition>) -> GraphView {
        GraphView { nodes: self.nodes.insert(h, NodeView { position, ..self.nodes[h] }), ..self }
    }

    /// The topology once a new edge `e` of the given weight was put between
    /// `a` and `b`: it is last in the list of its pair, under both
    /// orderings, and both endpoints gain twice its weight.
    pub open spec fn with_link(self, e: u32, a: u32, b: u32, weight: i64) -> GraphView {
        GraphView {
            nodes: bumped(self.nodes, a, b, 2 * weight),
            edges: self.edges.insert(e, Edge { u: a, v: b, weight }),
            index: self.index,
            parallel: self.parallel.insert((a, b), self.list(a, b).push(e)).insert(
                (b, a),
                self.list(a, b).push(e),
            ),
        }
    }

    /// The topology once the weight of the live edge `e` was replaced:
    /// both endpoints gain twice the difference.
    pub open spec fn reweighted(self, e: u32, weight: i64) -> GraphView {
        let was = self.edges[e];
        GraphView {
            nodes: bumped(self.nodes, was.u, was.v, 2 * (weight - was.weight)),
            edges: self.edges.insert(e, Edge { weight, ..was }),
            ..self
        }
    }

    /// The lists of the topology with the list of `a` and `b` replaced,
    /// under both orderings; an empty list leaves no entry.
    pub open spec fn relisted(self, a: u32, b: u32, list: Seq<u32>) -> Map<(u32, u32), Seq<u32>> {
        if list.len() == 0 {
            self.parallel.remove((a, b)).remove((b, a))
        } else {
            self.parallel.insert((a, b), list).insert((b, a), list)
        }
    }

    /// The topology once the edge at ordinal `i` between `a` and `b` was
    /// taken out: the last edge of the list takes its ordinal, and both
    /// endpoints lose twice its weight.
    pub open spec fn without_link(self, a: u32, b: u32, i: int) -> GraphView {
        let e = self.list(a, b)[i];
        GraphView {
            nodes: bumped(self.nodes, a, b, -2 * self.edges[e].weight),
            edges: self.edges.remove(e),
            index: self.index,
            parallel: self.relisted(a, b, swap_removed(self.list(a, b), i)),
        }
    }

    /// The topology once every edge between `a` and `b` was taken out.
    pub open spec fn without_links(self, a: u32, b: u32) -> GraphView {
        let list = self.list(a, b);
        GraphView {
            nodes: bumped(self.nodes, a, b, -2 * total_weight(self.edges, list)),
            edges: self.edges.remove_keys(list.to_set()),
            index: self.index,
            parallel: self.relisted(a, b, Seq::empty()),
        }
    }

    /// The topology once the node `h` and every edge at it were taken out:
    /// each remaining node carries the weighted degree that the remaining
    /// edges give it.
    pub open spec fn without_node(self, h: u32) -> GraphView {
        let edges = Map::new(
            |e: u32| self.edges.contains_key(e) && !self.edges[e].touches(h),
            |e: u32| self.edges[e],
        );
        GraphView {
            nodes: Map::new(
                |n: u32| self.nodes.contains_key(n) && n != h,
                |n: u32|
                    NodeView { weighted_degree: weighted_degree_of(edges, n), ..self.nodes[n] },
            ),
            edges,
            index: self.index.remove(self.nodes[h].name),
            parallel: Map::new(
                |p: (u32, u32)| self.parallel.contains_key(p) && p.0 != h && p.1 != h,
                |p: (u32, u32)| self.parallel[p],
            ),
        }
    }

    /// The weight that `get_edge_weight` reports: nothing where a key names
    /// no node or no edge runs between the two; with `single` the weight
    /// of the edge at ordinal `i` (nothing where there is none); without
    /// it the sum of the weights of all parallel edges.
    pub open spec fn link_weight(self, u: Seq<char>, v: Seq<char>, i: int, single: bool) -> int {
        if !self.index.contains_key(u) || !self.index.contains_key(v) {
            0
        } else {
            let list = self.list(self.index[u], self.index[v]);
            if single {
                if 0 <= i < list.len() {
                    self.edges[list[i]].weight as int
                } else {
                    0
                }
            } else {
                total_weight(self.edges, list)
            }
        }
    }

    /// A listing of the neighbours of `a`: one entry for every edge at
    /// `a`, so that a node joined to `a` by several parallel edges is
    /// listed that many times.
    pub open spec fn lists_neighbors(self, a: u32, handles: Seq<u32>) -> bool {
        &&& handles.len() == self.degree(a)
        &&& forall|b: u32| #[trigger] handles.to_multiset().count(b) == self.list(a, b).len()
    }

    /// The nodes under the given handles, in that order.
    pub open spec fn nodes_at(self, handles: Seq<u32>) -> Seq<NodeView> {
        Seq::new(handles.len(), |i: int| self.nodes[handles[i]])
    }

    /// Every node, by increasing handle.
    pub open spec fn node_list(self) -> Seq<NodeView> {
        nodes_below(self.nodes, handle_space())
    }

    /// Every edge, by increasing handle.
    pub open spec fn edge_list(self) -> Seq<Edge> {
        edges_below(self.edges, handle_space())
    }
}

} // verus!
