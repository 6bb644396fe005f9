//! The topology graph: nodes under stable handles, parallel edges, derived
//! weighted degrees, and the two lookup indices.

use crate::laws::lemma_counts_after_add_node;
use crate::model::{as_ints, running_totals, total_weight, GraphView};
use crate::outcomes::{
    add_edge_outcome, add_node_outcome, flag, merge_link_outcome, ordinal, remove_edge_outcome,
    remove_node_outcome, set_node_position_outcome, update_edge_outcome,
};
use crate::pairs::PairIndex;
use crate::store::{
    handle_limit, handle_space, node_views, slab_add_edge, slab_add_node, slab_clone,
    slab_contains_edge, slab_edge_count, slab_edge_list, slab_edge_weight, slab_edges,
    slab_neighbors, slab_new, slab_node, slab_node_count, slab_node_list, slab_nodes,
    slab_remove_edge, slab_remove_node, slab_set_edge_weight, slab_set_node, Slab,
};
use crate::sums::{
    lemma_edges_below_len, lemma_links_between_witness, lemma_nodes_below_covers,
    lemma_nodes_below_live, lemma_nodes_counted_same, lemma_total_weight_push,
    lemma_weight_at_bound,
};
use crate::types::{Edge, GeoPosition, GraphError, NeighborLink, Node, NodeView};
use crate::validity::{
    lemma_empty_valid, lemma_joined_iff_listed, lemma_list_counts_links, lemma_reweighted_valid,
    lemma_weight_at_remove_list, lemma_with_link_valid, lemma_with_node_valid,
    lemma_with_position_valid, lemma_without_link_valid, lemma_without_links_valid,
    lemma_without_node_valid,
};
use vstd::hash_map::StringHashMap;
use vstd::prelude::*;
use vstd::seq_lib::to_multiset_contains;

verus! {

/// A weighted, undirected multigraph whose nodes are found by key.
///
/// The graph owns its nodes and edges; what it hands out are copies. Its
/// fields are private, so that only the operations below change them, and
/// each of them keeps the graph well formed.
pub struct Graph {
    /// Nodes and edges under stable handles.
    g: Slab,
    /// Key to node handle.
    node_idx_map: StringHashMap<u32>,
    /// Ordered pair of node handles to the handles of the parallel edges
    /// between them, in the order in which they were added.
    edge_idx_map: PairIndex,
}

impl View for Graph {
    type V = GraphView;

    closed spec fn view(&self) -> GraphView {
        GraphView {
            nodes: slab_nodes(self.g),
            edges: slab_edges(self.g),
            index: self.node_idx_map@,
            parallel: self.edge_idx_map@,
        }
    }
}

impl Graph {
    /// The graph is well formed when its tables satisfy the invariant of
    /// the topology.
    pub open spec fn wf(&self) -> bool {
        self@.valid()
    }

    /// Creates a new, empty graph.
    pub fn new() -> (graph: Graph)
        ensures
            graph.wf(),
            graph@ == GraphView::empty(),
    {
        let graph = Graph {
            g: slab_new(),
            node_idx_map: StringHashMap::new(),
            edge_idx_map: PairIndex::new(),
        };
        proof {
            lemma_empty_valid();
        }
        graph
    }

    /// Adds a node under a key that is not yet in use, with no links and no
    /// known position, and returns its handle.
    pub fn add_node(&mut self, name: String) -> (r: Result<u32, GraphError>)
        requires
            old(self).wf(),
        ensures
            final(self).wf(),
            add_node_outcome(old(self)@, name@, final(self)@, r),
    {
        if self.node_idx_map.contains_key(name.as_str()) {
            return Err(GraphError::DuplicateKey);
        }
        let count = slab_node_count(&self.g);
        if count >= 0xffff_ffff {
            return Err(GraphError::CapacityExceeded);
        }
        let node = Node::new(name.clone());
        let h = slab_add_node(&mut self.g, node);
        self.node_idx_map.insert(name, h);
        proof {
            lemma_with_node_valid(old(self)@, h, name@);
        }
        Ok(h)
    }

    /// Returns the number of nodes in the graph.
    pub fn get_order(&self) -> (n: usize)
        ensures
            n == self@.order(),
    {
        slab_node_count(&self.g)
    }

    /// Returns the number of edges in the graph.
    pub fn get_size(&self) -> (n: usize)
        ensures
            n == self@.size(),
    {
        slab_edge_count(&self.g)
    }

    /// Returns a copy of the node under the given handle, if there is one.
    pub fn get_node(&self, idx: u32) -> (r: Option<Node>)
        ensures
            match r {
                Some(node) => self@.nodes.contains_key(idx) && node@ == self@.nodes[idx],
                None => !self@.nodes.contains_key(idx),
            },
    {
        match slab_node(&self.g, idx) {
            Some(node) => Some(node.clone()),
            None => None,
        }
    }

    /// Returns the handle of the node with the given key, if there is one.
    pub fn get_node_idx(&self, node: String) -> (r: Option<u32>)
        ensures
            match r {
                Some(h) => self@.index.contains_key(node@) && h == self@.index[node@],
                None => !self@.index.contains_key(node@),
            },
    {
        match self.node_idx_map.get(node.as_str()) {
            Some(h) => Some(*h),
            None => None,
        }
    }
    /// Adds twice `delta` to the weighted degree of a live node. The
    /// degree is derived from the edges, so this is one step of a mutation
    /// that changes them, never a mutation of its own.
    fn change_node_opt_weight(&mut self, idx: u32, delta: i128)
        requires
            old(self)@.nodes.contains_key(idx),
            -0x1_0000_0000_0000_0000_0000_0000 <= delta <= 0x1_0000_0000_0000_0000_0000_0000,
            i128::MIN <= old(self)@.nodes[idx].weighted_degree + 2 * delta <= i128::MAX,
        ensures
            final(self)@ == (GraphView {
                nodes: old(self)@.nodes.insert(
                    idx,
                    NodeView {
                        weighted_degree: old(self)@.nodes[idx].weighted_degree + 2 * delta,
                        ..old(self)@.nodes[idx]
                    },
                ),
                ..old(self)@
            }),
    {
        let mut node = match slab_node(&self.g, idx) {
            Some(node) => node.clone(),
            None => {
                return ;
            },
        };
        node.weighted_degree = node.weighted_degree + 2 * delta;
        slab_set_node(&mut self.g, idx, node);
    }

    /// Puts a new edge between two live nodes.
    fn link(&mut self, a: u32, b: u32, weight: i64) -> (r: Result<u32, GraphError>)
        requires
            old(self).wf(),
            old(self)@.nodes.contains_key(a),
            old(self)@.nodes.contains_key(b),
        ensures
            final(self).wf(),
            match r {
                Ok(e) => old(self)@.size() < handle_limit() && !old(self)@.edges.contains_key(e)
                    && final(self)@ == old(self)@.with_link(e, a, b, weight),
                Err(why) => why == GraphError::CapacityExceeded && old(self)@.size()
                    >= handle_limit() && final(self)@ == old(self)@,
            },
    {
        let count = slab_edge_count(&self.g);
        if count >= 0xffff_ffff {
            return Err(GraphError::CapacityExceeded);
        }
        let e = slab_add_edge(&mut self.g, a, b, weight);
        let mut list = match self.edge_idx_map.take(a, b) {
            Some(list) => list,
            None => Vec::new(),
        };
        list.push(e);
        if a != b {
            let copy = list.clone();
            self.edge_idx_map.put(b, a, copy);
        }
        self.edge_idx_map.put(a, b, list);
        proof {
            lemma_weight_at_bound(old(self)@.edges, a, handle_space());
            lemma_weight_at_bound(old(self)@.edges, b, handle_space());
        }
        self.change_node_opt_weight(a, weight as i128);
        if a != b {
            self.change_node_opt_weight(b, weight as i128);
        }
        proof {
            let want = old(self)@.with_link(e, a, b, weight);
            assert(self@.nodes =~= want.nodes);
            assert(self@.parallel =~= want.parallel);
            assert(self@.edges == want.edges);
            assert(self@.index == want.index);
            lemma_with_link_valid(old(self)@, e, a, b, weight);
        }
        Ok(e)
    }

    /// Adds an edge of the given weight between the nodes with keys `u`
    /// and `v`. An edge that is already there stays: the new one is
    /// parallel to it.
    pub fn add_edge(&mut self, u: String, v: String, weight: i64) -> (r: Result<(), GraphError>)
        requires
            old(self).wf(),
        ensures
            final(self).wf(),
            add_edge_outcome(old(self)@, u@, v@, weight, final(self)@, r),
    {
        let a = match self.node_idx_map.get(u.as_str()) {
            Some(h) => *h,
            None => {
                return Err(GraphError::UnknownNode);
            },
        };
        let b = match self.node_idx_map.get(v.as_str()) {
            Some(h) => *h,
            None => {
                return Err(GraphError::UnknownNode);
            },
        };
        match self.link(a, b, weight) {
            Ok(_) => Ok(()),
            Err(why) => Err(why),
        }
    }
    /// Takes out the edge at ordinal `i` between two nodes that have one.
    fn unlink(&mut self, a: u32, b: u32, i: usize) -> (r: Result<(), GraphError>)
        requires
            old(self).wf(),
            old(self)@.parallel.contains_key((a, b)),
        ensures
            final(self).wf(),
            match r {
                Ok(_) => i < old(self)@.list(a, b).len() && final(self)@ == old(self)@.without_link(
                    a,
                    b,
                    i as int,
                ),
                Err(why) => why == GraphError::UnknownEdge && i >= old(self)@.list(a, b).len()
                    && final(self)@ == old(self)@,
            },
    {
        let len = match self.edge_idx_map.get(a, b) {
            Some(list) => list.len(),
            None => 0,
        };
        if i >= len {
            return Err(GraphError::UnknownEdge);
        }
        let mut list = match self.edge_idx_map.take(a, b) {
            Some(list) => list,
            None => Vec::new(),
        };
        let e = list[i];
        proof {
            assert(old(self)@.edges.contains_key(old(self)@.parallel[(a, b)][i as int]));
            lemma_joined_iff_listed(old(self)@, a, b);
        }
        let weight = match slab_edge_weight(&self.g, e) {
            Some(w) => w,
            None => 0,
        };
        slab_remove_edge(&mut self.g, e);
        list.swap_remove(i);
        if a != b {
            self.edge_idx_map.take(b, a);
        }
        if list.len() > 0 {
            if a != b {
                let copy = list.clone();
                self.edge_idx_map.put(b, a, copy);
            }
            self.edge_idx_map.put(a, b, list);
        }
        proof {
            lemma_weight_at_bound(old(self)@.edges, a, handle_space());
            lemma_weight_at_bound(old(self)@.edges, b, handle_space());
        }
        self.change_node_opt_weight(a, -(weight as i128));
        if a != b {
            self.change_node_opt_weight(b, -(weight as i128));
        }
        proof {
            let want = old(self)@.without_link(a, b, i as int);
            assert(self@.nodes =~= want.nodes);
            assert(self@.parallel =~= want.parallel);
            assert(self@.edges == want.edges);
            assert(self@.index == want.index);
            lemma_without_link_valid(old(self)@, a, b, i as int);
        }
        Ok(())
    }

    /// Takes out every edge between two nodes that have one.
    fn unlink_all(&mut self, a: u32, b: u32)
        requires
            old(self).wf(),
            old(self)@.parallel.contains_key((a, b)),
        ensures
            final(self).wf(),
            final(self)@ == old(self)@.without_links(a, b),
    {
        let ghost before = self@;
        proof {
            lemma_joined_iff_listed(before, a, b);
        }
        let list = match self.edge_idx_map.take(a, b) {
            Some(list) => list,
            None => Vec::new(),
        };
        if a != b {
            self.edge_idx_map.take(b, a);
        }
        let mut total: i128 = 0;
        let mut j: usize = 0;
        proof {
            assert(list@.take(0) =~= Seq::<u32>::empty());
            assert(list@.take(0).to_set() =~= Set::<u32>::empty());
            assert(before.edges.remove_keys(Set::<u32>::empty()) =~= before.edges);
        }
        while j < list.len()
            invariant
                before.valid(),
                before.parallel.contains_key((a, b)),
                list@ == before.parallel[(a, b)],
                j <= list.len(),
                slab_edges(self.g) == before.edges.remove_keys(list@.take(j as int).to_set()),
                slab_nodes(self.g) == before.nodes,
                self.node_idx_map@ == before.index,
                self.edge_idx_map@ == before.parallel.remove((a, b)).remove((b, a)),
                total == total_weight(before.edges, list@.take(j as int)),
                -0x1_0000_0000_0000_0000_0000_0000 <= total <= 0x1_0000_0000_0000_0000_0000_0000,
            decreases list.len() - j,
        {
            let e = list[j];
            proof {
                assert(before.edges.contains_key(before.parallel[(a, b)][j as int]));
                if list@.take(j as int).contains(e) {
                    let k = choose|k: int| 0 <= k < j && list@.take(j as int)[k] == e;
                    assert(list@[k] == list@[j as int]);
                }
            }
            let weight = match slab_edge_weight(&self.g, e) {
                Some(w) => w,
                None => 0,
            };
            slab_remove_edge(&mut self.g, e);
            proof {
                let shorter = list@.take(j as int);
                let longer = list@.take(j + 1);
                assert(longer =~= shorter.push(e));
                assert(longer.to_set() =~= shorter.to_set().insert(e)) by {
                    assert forall|x: u32| longer.to_set().contains(x) == shorter.to_set().insert(
                        e,
                    ).contains(x) by {
                        if longer.contains(x) {
                            let k = choose|k: int| 0 <= k < longer.len() && longer[k] == x;
                            if k < j {
                                assert(shorter[k] == x);
                            }
                        }
                        if shorter.contains(x) {
                            let k = choose|k: int| 0 <= k < shorter.len() && shorter[k] == x;
                            assert(longer[k] == x);
                        }
                        if x == e {
                            assert(longer[j as int] == e);
                        }
                    }
                }
                assert(slab_edges(self.g) =~= before.edges.remove_keys(longer.to_set()));
                lemma_total_weight_push(before.edges, shorter, e);
                assert(longer.no_duplicates());
                assert forall|k: int| 0 <= k < longer.len() implies before.edges.contains_key(
                    #[trigger] longer[k],
                ) && before.edges[longer[k]].joins(a, b) by {
                    assert(before.edges.contains_key(before.parallel[(a, b)][k]));
                }
                lemma_weight_at_remove_list(before.edges, longer, a, a, b);
                lemma_weight_at_bound(before.edges, a, handle_space());
                lemma_weight_at_bound(before.edges.remove_keys(longer.to_set()), a, handle_space());
            }
            total = total + weight as i128;
            j = j + 1;
        }
        proof {
            assert(list@.take(j as int) =~= list@);
            assert forall|k: int| 0 <= k < list@.len() implies before.edges.contains_key(
                #[trigger] list@[k],
            ) && before.edges[list@[k]].joins(a, b) by {
                assert(before.edges.contains_key(before.parallel[(a, b)][k]));
            }
            lemma_weight_at_remove_list(before.edges, list@, a, a, b);
            lemma_weight_at_remove_list(before.edges, list@, b, a, b);
            lemma_weight_at_bound(before.edges.remove_keys(list@.to_set()), a, handle_space());
            lemma_weight_at_bound(before.edges.remove_keys(list@.to_set()), b, handle_space());
        }
        self.change_node_opt_weight(a, -total);
        if a != b {
            self.change_node_opt_weight(b, -total);
        }
        proof {
            let want = before.without_links(a, b);
            assert(self@.nodes =~= want.nodes);
            assert(self@.parallel =~= want.parallel);
            assert(self@.edges == want.edges);
            assert(self@.index == want.index);
            lemma_without_links_valid(before, a, b);
        }
    }

    /// Removes one edge between the nodes with keys `u` and `v`, or all of
    /// them. Where one edge leaves, it is the one at `parallel_edge_idx`
    /// (the first where none is given), and the last edge of the list takes
    /// its ordinal; every other edge keeps its own.
    pub fn remove_edge(
        &mut self,
        u: String,
        v: String,
        parallel_edge_idx: Option<usize>,
        remove_all_parallel: Option<bool>,
    ) -> (r: Result<(), GraphError>)
        requires
            old(self).wf(),
        ensures
            final(self).wf(),
            remove_edge_outcome(
                old(self)@,
                u@,
                v@,
                ordinal(parallel_edge_idx),
                flag(remove_all_parallel),
                final(self)@,
                r,
            ),
    {
        let a = match self.node_idx_map.get(u.as_str()) {
            Some(h) => *h,
            None => {
                return Err(GraphError::UnknownNode);
            },
        };
        let b = match self.node_idx_map.get(v.as_str()) {
            Some(h) => *h,
            None => {
                return Err(GraphError::UnknownNode);
            },
        };
        proof {
            lemma_joined_iff_listed(self@, a, b);
        }
        if !slab_contains_edge(&self.g, a, b) {
            return Err(GraphError::UnknownEdge);
        }
        let all = match remove_all_parallel {
            Some(choice) => choice,
            None => false,
        };
        if all {
            self.unlink_all(a, b);
            Ok(())
        } else {
            let i = match parallel_edge_idx {
                Some(i) => i,
                None => 0,
            };
            self.unlink(a, b, i)
        }
    }
    /// Replaces the weight of the edge at ordinal `i` between two nodes
    /// that have one.
    fn reweigh(&mut self, a: u32, b: u32, weight: i64, i: usize) -> (r: Result<(), GraphError>)
        requires
            old(self).wf(),
            old(self)@.parallel.contains_key((a, b)),
        ensures
            final(self).wf(),
            match r {
                Ok(_) => i < old(self)@.list(a, b).len() && final(self)@ == old(self)@.reweighted(
                    old(self)@.list(a, b)[i as int],
                    weight,
                ),
                Err(why) => why == GraphError::UnknownEdge && i >= old(self)@.list(a, b).len()
                    && final(self)@ == old(self)@,
            },
    {
        let e = match self.edge_idx_map.get(a, b) {
            Some(list) => {
                if i >= list.len() {
                    return Err(GraphError::UnknownEdge);
                }
                list[i]
            },
            None => {
                return Err(GraphError::UnknownEdge);
            },
        };
        proof {
            assert(self@.edges.contains_key(self@.parallel[(a, b)][i as int]));
        }
        let old_weight = match slab_edge_weight(&self.g, e) {
            Some(w) => w,
            None => 0,
        };
        slab_set_edge_weight(&mut self.g, e, weight);
        proof {
            lemma_weight_at_bound(old(self)@.edges, a, handle_space());
            lemma_weight_at_bound(old(self)@.edges, b, handle_space());
        }
        let delta: i128 = weight as i128 - old_weight as i128;
        self.change_node_opt_weight(a, delta);
        if a != b {
            self.change_node_opt_weight(b, delta);
        }
        proof {
            let want = old(self)@.reweighted(e, weight);
            assert(self@.nodes =~= want.nodes);
            assert(self@.parallel == want.parallel);
            assert(self@.edges == want.edges);
            assert(self@.index == want.index);
            lemma_reweighted_valid(old(self)@, e, weight);
        }
        Ok(())
    }

    /// Sets the weight of an edge between the nodes with keys `u` and `v`.
    /// Where there is none yet, one is added. Where there is one, the edge
    /// at `parallel_edge_idx` (the first where none is given) gets the new
    /// weight and keeps its handle and its ordinal.
    pub fn update_edge(
        &mut self,
        u: String,
        v: String,
        weight: i64,
        parallel_edge_idx: Option<usize>,
    ) -> (r: Result<(), GraphError>)
        requires
            old(self).wf(),
        ensures
            final(self).wf(),
            update_edge_outcome(
                old(self)@,
                u@,
                v@,
                weight,
                ordinal(parallel_edge_idx),
                final(self)@,
                r,
            ),
    {
        let a = match self.node_idx_map.get(u.as_str()) {
            Some(h) => *h,
            None => {
                return Err(GraphError::UnknownNode);
            },
        };
        let b = match self.node_idx_map.get(v.as_str()) {
            Some(h) => *h,
            None => {
                return Err(GraphError::UnknownNode);
            },
        };
        proof {
            lemma_joined_iff_listed(self@, a, b);
        }
        if !slab_contains_edge(&self.g, a, b) {
            return match self.link(a, b, weight) {
                Ok(_) => Ok(()),
                Err(why) => Err(why),
            };
        }
        let i = match parallel_edge_idx {
            Some(i) => i,
            None => 0,
        };
        self.reweigh(a, b, weight, i)
    }

    /// Returns the weight between the nodes with keys `u` and `v`: the sum
    /// over all parallel edges, or, where `single_edge` is set, the weight
    /// of the edge at `parallel_edge_idx` alone (the first where none is
    /// given). Where a key names no node or no such edge exists, the
    /// answer is 0.
    pub fn get_edge_weight(
        &self,
        u: String,
        v: String,
        parallel_edge_idx: Option<usize>,
        single_edge: Option<bool>,
    ) -> (weight: i128)
        requires
            self.wf(),
        ensures
            weight == self@.link_weight(u@, v@, ordinal(parallel_edge_idx), flag(single_edge)),
    {
        let a = match self.node_idx_map.get(u.as_str()) {
            Some(h) => *h,
            None => {
                return 0;
            },
        };
        let b = match self.node_idx_map.get(v.as_str()) {
            Some(h) => *h,
            None => {
                return 0;
            },
        };
        proof {
            lemma_joined_iff_listed(self@, a, b);
        }
        if !slab_contains_edge(&self.g, a, b) {
            return 0;
        }
        let list = match self.edge_idx_map.get(a, b) {
            Some(list) => list,
            None => {
                return 0;
            },
        };
        let single = match single_edge {
            Some(choice) => choice,
            None => false,
        };
        if single {
            let i = match parallel_edge_idx {
                Some(i) => i,
                None => 0,
            };
            if i < list.len() {
                proof {
                    assert(self@.edges.contains_key(self@.parallel[(a, b)][i as int]));
                }
                match slab_edge_weight(&self.g, list[i]) {
                    Some(w) => w as i128,
                    None => 0,
                }
            } else {
                0
            }
        } else {
            let mut total: i128 = 0;
            let mut j: usize = 0;
            while j < list.len()
                invariant
                    self.wf(),
                    self@.parallel.contains_key((a, b)),
                    list@ == self@.parallel[(a, b)],
                    j <= list.len(),
                    total == total_weight(self@.edges, list@.take(j as int)),
                    -0x1_0000_0000_0000_0000_0000_0000 <= total
                        <= 0x1_0000_0000_0000_0000_0000_0000,
                decreases list.len() - j,
            {
                proof {
                    assert(self@.edges.contains_key(self@.parallel[(a, b)][j as int]));
                }
                let w = match slab_edge_weight(&self.g, list[j]) {
                    Some(w) => w,
                    None => 0,
                };
                proof {
                    let shorter = list@.take(j as int);
                    let longer = list@.take(j + 1);
                    assert(longer =~= shorter.push(list@[j as int]));
                    lemma_total_weight_push(self@.edges, shorter, list@[j as int]);
                    assert(longer.no_duplicates());
                    assert forall|k: int| 0 <= k < longer.len() implies self@.edges.contains_key(
                        #[trigger] longer[k],
                    ) && self@.edges[longer[k]].joins(a, b) by {
                        assert(self@.edges.contains_key(self@.parallel[(a, b)][k]));
                    }
                    lemma_weight_at_remove_list(self@.edges, longer, a, a, b);
                    lemma_weight_at_bound(self@.edges, a, handle_space());
                    lemma_weight_at_bound(
                        self@.edges.remove_keys(longer.to_set()),
                        a,
                        handle_space(),
                    );
                }
                total = total + w as i128;
                j = j + 1;
            }
            proof {
                assert(list@.take(j as int) =~= list@);
            }
            total
        }
    }
    /// Removes a node and every edge at it.
    pub fn remove_node(&mut self, node: u32) -> (r: Result<(), GraphError>)
        requires
            old(self).wf(),
        ensures
            final(self).wf(),
            remove_node_outcome(old(self)@, node, final(self)@, r),
    {
        let name = match slab_node(&self.g, node) {
            Some(found) => found.name.clone(),
            None => {
                return Err(GraphError::UnknownNode);
            },
        };
        let neighbors = slab_neighbors(&self.g, node);
        let ghost before = self@;
        let mut j: usize = 0;
        while j < neighbors.len()
            invariant
                j <= neighbors.len(),
                before.valid(),
                self.wf(),
                self@.index == before.index,
                forall|n: u32| #[trigger] self@.nodes.contains_key(n) == before.nodes.contains_key(n),
                forall|n: u32| #[trigger]
                    before.nodes.contains_key(n) ==> self@.nodes[n].name == before.nodes[n].name
                        && self@.nodes[n].position == before.nodes[n].position,
                forall|e: u32| #[trigger]
                    self@.edges.contains_key(e) ==> before.edges.contains_key(e) && self@.edges[e]
                        == before.edges[e],
                forall|e: u32|
                    before.edges.contains_key(e) && !before.edges[e].touches(node)
                        ==> #[trigger] self@.edges.contains_key(e),
                forall|k: int, e: u32|
                    0 <= k < j && #[trigger] self@.edges.contains_key(e) ==> !self@.edges[e].joins(
                        node,
                        #[trigger] neighbors@[k],
                    ),
                forall|p: (u32, u32)| #[trigger]
                    self@.parallel.contains_key(p) ==> before.parallel.contains_key(p)
                        && self@.parallel[p] == before.parallel[p],
                forall|p: (u32, u32)|
                    before.parallel.contains_key(p) && p.0 != node && p.1 != node
                        ==> #[trigger] self@.parallel.contains_key(p),
            decreases neighbors.len() - j,
        {
            let b = neighbors[j];
            let ghost here = self@;
            proof {
                lemma_joined_iff_listed(here, node, b);
            }
            if slab_contains_edge(&self.g, node, b) {
                proof {
                    let e = choose|e: u32| #[trigger]
                        slab_edges(self.g).contains_key(e) && slab_edges(self.g)[e].joins(node, b);
                    assert(here.edges.contains_key(e) && here.edges[e].joins(node, b));
                }
                self.unlink_all(node, b);
                proof {
                    let list = here.list(node, b);
                    assert forall|e: u32|
                        before.edges.contains_key(e) && !before.edges[e].touches(
                            node,
                        ) implies #[trigger] self@.edges.contains_key(e) by {
                        assert(here.edges.contains_key(e));
                        if list.contains(e) {
                            let k = choose|k: int| 0 <= k < list.len() && list[k] == e;
                            assert(here.edges.contains_key(here.parallel[(node, b)][k]));
                        }
                    }
                    assert forall|e: u32| #[trigger] self@.edges.contains_key(e) implies !self@.edges[e].joins(
                    node, b) by {
                        assert(here.edges.contains_key(e));
                        if here.edges[e].joins(node, b) {
                            assert(here.list(here.edges[e].u, here.edges[e].v).contains(e));
                            assert(list.contains(e));
                        }
                    }
                    assert forall|n: u32| #[trigger]
                        before.nodes.contains_key(n) implies self@.nodes[n].name
                        == before.nodes[n].name && self@.nodes[n].position
                        == before.nodes[n].position by {
                        assert(here.nodes.contains_key(n));
                    }
                    assert forall|p: (u32, u32)|
                        before.parallel.contains_key(p) && p.0 != node && p.1
                            != node implies #[trigger] self@.parallel.contains_key(p) by {
                        assert(here.parallel.contains_key(p));
                    }
                }
            }
            j = j + 1;
        }
        let ghost cleared = self@;
        proof {
            assert forall|e: u32| #[trigger] cleared.edges.contains_key(e) implies !cleared.edges[e].touches(
            node) by {
                if cleared.edges[e].touches(node) {
                    let edge = cleared.edges[e];
                    let other = if edge.u == node {
                        edge.v
                    } else {
                        edge.u
                    };
                    assert(before.edges.contains_key(e) && before.edges[e].joins(node, other));
                    lemma_links_between_witness(before.edges, node, other, e, handle_space());
                    to_multiset_contains(neighbors@, other);
                    assert(neighbors@.to_multiset().count(other) > 0);
                    let k = choose|k: int| 0 <= k < neighbors@.len() && neighbors@[k] == other;
                    assert(!cleared.edges[e].joins(node, neighbors@[k]));
                }
            }
        }
        slab_remove_node(&mut self.g, node);
        self.node_idx_map.remove(name.as_str());
        proof {
            let want = before.without_node(node);
            assert(self@.edges =~= cleared.edges);
            assert(self@.edges =~= want.edges);
            assert(self@.nodes =~= want.nodes) by {
                assert forall|n: u32| #[trigger] want.nodes.contains_key(n) implies self@.nodes[n]
                    == want.nodes[n] by {
                    assert(cleared.nodes.contains_key(n));
                    assert(before.nodes.contains_key(n));
                }
            }
            assert(self@.index == want.index);
            assert(self@.parallel =~= want.parallel) by {
                assert forall|p: (u32, u32)| #[trigger]
                    cleared.parallel.contains_key(p) implies p.0 != node && p.1 != node by {
                    assert(cleared.parallel.contains_key((p.0, p.1)));
                    assert(cleared.edges.contains_key(cleared.parallel[(p.0, p.1)][0]));
                }
            }
            lemma_without_node_valid(before, node);
        }
        Ok(())
    }

    /// Returns the handles of the nodes connected to the node with the
    /// given key, one for every edge at it; nothing where the key names no
    /// node.
    pub fn get_neighbors_idx(&self, node: String) -> (handles: Vec<u32>)
        requires
            self.wf(),
        ensures
            !self@.index.contains_key(node@) ==> handles@.len() == 0,
            self@.index.contains_key(node@) ==> self@.lists_neighbors(
                self@.index[node@],
                handles@,
            ),
    {
        let a = match self.node_idx_map.get(node.as_str()) {
            Some(h) => *h,
            None => {
                return Vec::new();
            },
        };
        let handles = slab_neighbors(&self.g, a);
        proof {
            assert forall|b: u32| #[trigger]
                handles@.to_multiset().count(b) == self@.list(a, b).len() by {
                lemma_list_counts_links(self@, a, b);
            }
        }
        handles
    }

    /// Returns the number of edges at the node with the given key (a
    /// self-loop counts once), or 0 where the key names no node.
    pub fn degree_of(&self, node: String) -> (degree: usize)
        ensures
            degree == (if self@.index.contains_key(node@) {
                self@.degree(self@.index[node@])
            } else {
                0
            }),
    {
        let a = match self.node_idx_map.get(node.as_str()) {
            Some(h) => *h,
            None => {
                return 0;
            },
        };
        slab_neighbors(&self.g, a).len()
    }
    /// Returns copies of the nodes connected to the node with the given
    /// key, one for every edge at it; nothing where the key names no node.
    pub fn get_neighbors(&self, node: String) -> (nodes: Vec<Node>)
        requires
            self.wf(),
        ensures
            !self@.index.contains_key(node@) ==> nodes@.len() == 0,
            self@.index.contains_key(node@) ==> exists|handles: Seq<u32>|
                self@.lists_neighbors(self@.index[node@], handles) && node_views(nodes@)
                    == #[trigger] self@.nodes_at(handles),
    {
        let a = match self.node_idx_map.get(node.as_str()) {
            Some(h) => *h,
            None => {
                return Vec::new();
            },
        };
        let handles = self.get_neighbors_idx(node);
        let mut nodes: Vec<Node> = Vec::new();
        let mut j: usize = 0;
        while j < handles.len()
            invariant
                self.wf(),
                j <= handles.len(),
                self@.lists_neighbors(a, handles@),
                nodes@.len() == j,
                forall|k: int| 0 <= k < j ==> (#[trigger] nodes@[k])@ == self@.nodes[handles@[k]],
            decreases handles.len() - j,
        {
            let h = handles[j];
            proof {
                to_multiset_contains(handles@, h);
                assert(handles@.contains(h)) by {
                    assert(handles@[j as int] == h);
                }
                assert(self@.parallel.contains_key((a, h)));
                assert(self@.edges.contains_key(self@.parallel[(a, h)][0]));
            }
            match slab_node(&self.g, h) {
                Some(found) => {
                    nodes.push(found.clone());
                },
                None => {},
            }
            j = j + 1;
        }
        proof {
            assert(node_views(nodes@) =~= self@.nodes_at(handles@));
        }
        nodes
    }

    /// Returns a copy of every node of the graph, by increasing handle.
    pub fn get_nodes(&self) -> (nodes: Vec<Node>)
        ensures
            node_views(nodes@) == self@.node_list(),
    {
        slab_node_list(&self.g)
    }

    /// Returns a copy of every edge of the graph, by increasing handle.
    pub fn get_edges(&self) -> (edges: Vec<Edge>)
        ensures
            edges@ == self@.edge_list(),
    {
        slab_edge_list(&self.g)
    }

    /// Returns, edge by edge in the order of `get_edges`, the running
    /// total of twice the weight.
    pub fn get_cumulative_edge_weights(&self) -> (totals: Vec<i128>)
        ensures
            as_ints(totals@) == running_totals(self@.edge_list()),
    {
        let edges = slab_edge_list(&self.g);
        let mut totals: Vec<i128> = Vec::new();
        let mut total: i128 = 0;
        let mut j: usize = 0;
        proof {
            lemma_edges_below_len(self@.edges, handle_space());
            assert(edges@.take(0) =~= Seq::<Edge>::empty());
            assert(as_ints(totals@) =~= running_totals(edges@.take(0)));
        }
        while j < edges.len()
            invariant
                j <= edges.len(),
                edges.len() <= 0x1_0000_0000,
                totals@.len() == j,
                as_ints(totals@) == running_totals(edges@.take(j as int)),
                total == (if j == 0 {
                    0
                } else {
                    totals@[j - 1] as int
                }),
                -(j * 0x1_0000_0000_0000_0000) <= total <= j * 0x1_0000_0000_0000_0000,
            decreases edges.len() - j,
        {
            proof {
                assert((j + 1) * 0x1_0000_0000_0000_0000 == j * 0x1_0000_0000_0000_0000
                    + 0x1_0000_0000_0000_0000) by (nonlinear_arith);
                assert((j + 1) * 0x1_0000_0000_0000_0000 <= 0x1_0000_0000
                    * 0x1_0000_0000_0000_0000) by (nonlinear_arith)
                    requires
                        j + 1 <= 0x1_0000_0000,
                ;
            }
            let ghost shorter = edges@.take(j as int);
            let ghost longer = edges@.take(j + 1);
            let ghost earlier = as_ints(totals@);
            total = total + 2 * (edges[j].weight as i128);
            totals.push(total);
            proof {
                assert(longer.drop_last() =~= shorter);
                assert(longer.last() == edges@[j as int]);
                assert(as_ints(totals@) =~= earlier.push(total as int));
                assert(earlier.len() == j);
                if j > 0 {
                    assert(earlier.last() == earlier[j - 1]);
                }
            }
            j = j + 1;
        }
        proof {
            assert(edges@.take(j as int) =~= edges@);
        }
        totals
    }

    /// Stores a position with the node that has the given key, or takes
    /// it away.
    pub fn set_node_position(&mut self, node: String, position: Option<GeoPosition>) -> (r: Result<
        (),
        GraphError,
    >)
        requires
            old(self).wf(),
        ensures
            final(self).wf(),
            set_node_position_outcome(old(self)@, node@, position, final(self)@, r),
    {
        let h = match self.node_idx_map.get(node.as_str()) {
            Some(h) => *h,
            None => {
                return Err(GraphError::UnknownNode);
            },
        };
        let mut changed = match slab_node(&self.g, h) {
            Some(found) => found.clone(),
            None => {
                return Err(GraphError::UnknownNode);
            },
        };
        changed.position = position;
        slab_set_node(&mut self.g, h, changed);
        proof {
            lemma_with_position_valid(old(self)@, h, position);
        }
        Ok(())
    }

    /// Returns a deep copy of the graph: the same nodes and edges under
    /// the same handles, and both indices, sharing nothing with this one.
    pub fn clone(&self) -> (copy: Graph)
        requires
            self.wf(),
        ensures
            copy.wf(),
            copy@ == self@,
    {
        let g = slab_clone(&self.g);
        let edge_idx_map = self.edge_idx_map.duplicate();
        let nodes = slab_node_list(&self.g);
        let mut node_idx_map: StringHashMap<u32> = StringHashMap::new();
        let mut j: usize = 0;
        while j < nodes.len()
            invariant
                self.wf(),
                j <= nodes.len(),
                node_views(nodes@) == self@.node_list(),
                forall|name: Seq<char>| #[trigger]
                    node_idx_map@.contains_key(name) ==> self@.index.contains_key(name)
                        && node_idx_map@[name] == self@.index[name],
                forall|k: int|
                    0 <= k < j ==> node_idx_map@.contains_key(#[trigger] node_views(nodes@)[k].name),
            decreases nodes.len() - j,
        {
            let name = nodes[j].name.clone();
            proof {
                assert(node_views(nodes@)[j as int].name == name@);
            }
            match self.node_idx_map.get(name.as_str()) {
                Some(h) => {
                    node_idx_map.insert(name, *h);
                },
                None => {
                    proof {
                        lemma_nodes_below_live(self@.nodes, handle_space(), j as int);
                    }
                },
            }
            j = j + 1;
        }
        proof {
            assert forall|name: Seq<char>| #[trigger]
                self@.index.contains_key(name) implies node_idx_map@.contains_key(name) by {
                let h = self@.index[name];
                lemma_nodes_below_covers(self@.nodes, h, handle_space());
                let listing = self@.node_list();
                let k = choose|k: int| 0 <= k < listing.len() && listing[k] == self@.nodes[h];
                assert(node_idx_map@.contains_key(node_views(nodes@)[k].name));
            }
            assert(node_idx_map@ =~= self@.index);
        }
        Graph { g, node_idx_map, edge_idx_map }
    }

    /// Makes sure that a key names a node, and stores a reported position
    /// with it.
    fn settle_node(&mut self, name: &String, position: Option<GeoPosition>)
        requires
            old(self).wf(),
            old(self)@.order() < handle_limit(),
        ensures
            final(self).wf(),
            exists|with_node: GraphView| #[trigger]
                old(self)@.gains_node(name@, with_node) && final(self)@ == with_node.located(
                    name@,
                    position,
                ),
            final(self)@.index.contains_key(name@),
            final(self)@.size() == old(self)@.size(),
            final(self)@.order() <= old(self)@.order() + 1,
    {
        let added = self.add_node(name.clone());
        let ghost with_node = self@;
        proof {
            match added {
                Ok(h) => {
                    lemma_counts_after_add_node(old(self)@, h, name@);
                },
                Err(_) => {},
            }
            assert(old(self)@.gains_node(name@, with_node));
        }
        match position {
            Some(p) => {
                let _ = self.set_node_position(name.clone(), Some(p));
                proof {
                    lemma_nodes_counted_same(with_node.nodes, self@.nodes, handle_space());
                }
            },
            None => {},
        }
    }

    /// Merges a link that a device reports into the graph: both ends
    /// become nodes where they are none yet, each takes the position that
    /// was reported for it, and the weight between them is set as
    /// `update_edge` sets it. A graph without room for two nodes and one
    /// edge refuses the link and stays as it is.
    pub fn merge_link(&mut self, link: &NeighborLink) -> (r: Result<(), GraphError>)
        requires
            old(self).wf(),
        ensures
            final(self).wf(),
            merge_link_outcome(old(self)@, link@, final(self)@, r),
    {
        if self.get_order() >= 0xffff_fffe || self.get_size() >= 0xffff_ffff {
            return Err(GraphError::CapacityExceeded);
        }
        self.settle_node(&link.node, link.node_position);
        let ghost first = choose|first: GraphView| #[trigger]
            old(self)@.gains_node(link.node@, first) && self@ == first.located(
                link.node@,
                link.node_position,
            );
        let ghost located_first = self@;
        self.settle_node(&link.neighbor, link.neighbor_position);
        let ghost second = choose|second: GraphView| #[trigger]
            located_first.gains_node(link.neighbor@, second) && self@ == second.located(
                link.neighbor@,
                link.neighbor_position,
            );
        let ghost located_second = self@;
        proof {
            assert(located_second.index.contains_key(link.node@)) by {
                if located_first.index.contains_key(link.neighbor@) {
                } else {
                    let h = choose|h: u32|
                        !located_first.nodes.contains_key(h) && second
                            == #[trigger] located_first.with_node(h, link.neighbor@);
                    assert(second.index.contains_key(link.node@));
                }
            }
        }
        let r = self.update_edge(link.node.clone(), link.neighbor.clone(), link.weight, None);
        proof {
            assert(r.is_ok());
            assert(r == Ok::<(), GraphError>(())) by {
                assert(r.unwrap() == ());
            }
            assert(located_second == second.located(link@.neighbor, link@.neighbor_position));
            assert(located_first.gains_node(link@.neighbor, second));
            assert(located_first.merged_far_end(link@, self@));
            assert(old(self)@.gains_node(link@.node, first));
        }
        r
    }
}

} // verus!
