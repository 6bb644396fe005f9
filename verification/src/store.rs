//! The slab that backs the topology graph: petgraph's `StableGraph`, seen
//! through two tables of plain values and a small set of operations whose
//! contracts are stated, not proved.

use crate::types::{Edge, Node, NodeView};
use petgraph::stable_graph::{EdgeIndex, NodeIndex, StableGraph};
use petgraph::visit::{EdgeRef, IntoEdgeReferences};
use petgraph::Undirected;
use vstd::prelude::*;

verus! {

/// petgraph's marker for graphs whose edges have no direction.
#[verifier::external_type_specification]
#[verifier::external_body]
pub struct ExUndirected(Undirected);

/// petgraph's graph with stable handles. Nothing of its inside is known
/// here: what it holds is named by `slab_nodes` and `slab_edges` below.
#[verifier::external_type_specification]
#[verifier::external_body]
#[verifier::reject_recursive_types(N)]
#[verifier::reject_recursive_types(E)]
#[verifier::reject_recursive_types(Ty)]
#[verifier::reject_recursive_types(Ix)]
pub struct ExStableGraph<N, E, Ty, Ix>(StableGraph<N, E, Ty, Ix>);

/// The slab itself: an undirected multigraph with stable 32-bit handles,
/// whose node payload is a `Node` and whose edge payload is a weight.
pub type Slab = StableGraph<Node, i64, Undirected, u32>;

/// The node table of a slab: the payload of each live node handle.
pub uninterp spec fn slab_nodes(g: Slab) -> Map<u32, NodeView>;

/// The link table of a slab: for each live edge handle, its two endpoint
/// handles (source in `u`, target in `v`) and its weight.
pub uninterp spec fn slab_edges(g: Slab) -> Map<u32, Edge>;

/// One more than the largest value a handle can take.
pub open spec fn handle_space() -> nat {
    0x1_0000_0000
}

/// The number of handles a table can hold: the handle space, less the one
/// value petgraph keeps as its end marker.
pub open spec fn handle_limit() -> nat {
    0xffff_ffff
}

/// How many handles below `k` are live in the node table.
pub open spec fn nodes_counted(nodes: Map<u32, NodeView>, k: nat) -> nat
    decreases k,
{
    if k == 0 {
        0
    } else if nodes.contains_key((k - 1) as u32) {
        nodes_counted(nodes, (k - 1) as nat) + 1
    } else {
        nodes_counted(nodes, (k - 1) as nat)
    }
}

/// How many handles below `k` are live in the link table.
pub open spec fn edges_counted(edges: Map<u32, Edge>, k: nat) -> nat
    decreases k,
{
    if k == 0 {
        0
    } else if edges.contains_key((k - 1) as u32) {
        edges_counted(edges, (k - 1) as nat) + 1
    } else {
        edges_counted(edges, (k - 1) as nat)
    }
}

/// How many edges with a handle below `k` have `a` as an endpoint.
pub open spec fn links_at(edges: Map<u32, Edge>, a: u32, k: nat) -> nat
    decreases k,
{
    if k == 0 {
        0
    } else if edges.contains_key((k - 1) as u32) && edges[(k - 1) as u32].touches(a) {
        links_at(edges, a, (k - 1) as nat) + 1
    } else {
        links_at(edges, a, (k - 1) as nat)
    }
}

/// How many edges with a handle below `k` run between `a` and `b`.
pub open spec fn links_between(edges: Map<u32, Edge>, a: u32, b: u32, k: nat) -> nat
    decreases k,
{
    if k == 0 {
        0
    } else if edges.contains_key((k - 1) as u32) && edges[(k - 1) as u32].joins(a, b) {
        links_between(edges, a, b, (k - 1) as nat) + 1
    } else {
        links_between(edges, a, b, (k - 1) as nat)
    }
}

/// The link table once every edge at `a` is gone.
pub open spec fn links_without(edges: Map<u32, Edge>, a: u32) -> Map<u32, Edge> {
    Map::new(|e: u32| edges.contains_key(e) && !edges[e].touches(a), |e: u32| edges[e])
}

/// The edges with a handle below `k`, by increasing handle.
pub open spec fn edges_below(edges: Map<u32, Edge>, k: nat) -> Seq<Edge>
    decreases k,
{
    if k == 0 {
        Seq::empty()
    } else if edges.contains_key((k - 1) as u32) {
        edges_below(edges, (k - 1) as nat).push(edges[(k - 1) as u32])
    } else {
        edges_below(edges, (k - 1) as nat)
    }
}

/// The nodes with a handle below `k`, by increasing handle.
pub open spec fn nodes_below(nodes: Map<u32, NodeView>, k: nat) -> Seq<NodeView>
    decreases k,
{
    if k == 0 {
        Seq::empty()
    } else if nodes.contains_key((k - 1) as u32) {
        nodes_below(nodes, (k - 1) as nat).push(nodes[(k - 1) as u32])
    } else {
        nodes_below(nodes, (k - 1) as nat)
    }
}

/// The views of a sequence of nodes.
pub open spec fn node_views(nodes: Seq<Node>) -> Seq<NodeView> {
    Seq::new(nodes.len(), |i: int| nodes[i]@)
}

/// `StableGraph::default`: a slab with no nodes and no edges.
#[verifier::external_body]
pub(crate) fn slab_new() -> (g: Slab)
    ensures
        slab_nodes(g) == (Map::<u32, NodeView>::empty()),
        slab_edges(g) == (Map::<u32, Edge>::empty()),
{
    StableGraph::default()
}

/// `StableGraph::node_count`: the number of live nodes.
#[verifier::external_body]
pub(crate) fn slab_node_count(g: &Slab) -> (n: usize)
    ensures
        n == nodes_counted(slab_nodes(*g), handle_space()),
{
    g.node_count()
}

/// `StableGraph::edge_count`: the number of live edges.
#[verifier::external_body]
pub(crate) fn slab_edge_count(g: &Slab) -> (n: usize)
    ensures
        n == edges_counted(slab_edges(*g), handle_space()),
{
    g.edge_count()
}

/// `StableGraph::add_node`: stores the payload under a handle that was not
/// live, and touches nothing else. petgraph panics only when no vacant slot
/// is left and the slot vector has grown to the end marker. With no vacant
/// slot every slot is live, so the vector is as long as the count of live
/// nodes: fewer live nodes than `handle_limit()` rule the panic out.
#[verifier::external_body]
pub(crate) fn slab_add_node(g: &mut Slab, node: Node) -> (h: u32)
    requires
        nodes_counted(slab_nodes(*old(g)), handle_space()) < handle_limit(),
    ensures
        !slab_nodes(*old(g)).contains_key(h),
        slab_nodes(*final(g)) == slab_nodes(*old(g)).insert(h, node@),
        slab_edges(*final(g)) == slab_edges(*old(g)),
{
    g.add_node(node).index() as u32
}

/// `StableGraph::node_weight`: the payload under a handle, if it is live.
#[verifier::external_body]
pub(crate) fn slab_node(g: &Slab, h: u32) -> (r: Option<&Node>)
    ensures
        match r {
            Some(node) => slab_nodes(*g).contains_key(h) && node@ == slab_nodes(*g)[h],
            None => !slab_nodes(*g).contains_key(h),
        },
{
    g.node_weight(NodeIndex::new(h as usize))
}

/// `StableGraph`'s `IndexMut` by node handle, used to overwrite the payload
/// of a node. Nothing else changes. petgraph panics where the node is not
/// live.
#[verifier::external_body]
pub(crate) fn slab_set_node(g: &mut Slab, h: u32, node: Node)
    requires
        slab_nodes(*old(g)).contains_key(h),
    ensures
        slab_nodes(*final(g)) == slab_nodes(*old(g)).insert(h, node@),
        slab_edges(*final(g)) == slab_edges(*old(g)),
{
    g[NodeIndex::new(h as usize)] = node;
}

/// `StableGraph::remove_node`: the node leaves, and with it every edge that
/// has it as an endpoint. Other handles stay as they are.
#[verifier::external_body]
pub(crate) fn slab_remove_node(g: &mut Slab, h: u32)
    ensures
        slab_nodes(*final(g)) == slab_nodes(*old(g)).remove(h),
        slab_edges(*final(g)) == links_without(slab_edges(*old(g)), h),
{
    g.remove_node(NodeIndex::new(h as usize));
}

/// `StableGraph::add_edge`: stores a new edge from `a` to `b` under a
/// handle that was not live; parallel edges are allowed. petgraph panics
/// when an endpoint is not live, or when no vacant slot is left and the
/// slot vector has grown to the end marker, which fewer live edges than
/// `handle_limit()` rule out as they do for nodes.
#[verifier::external_body]
pub(crate) fn slab_add_edge(g: &mut Slab, a: u32, b: u32, weight: i64) -> (e: u32)
    requires
        slab_nodes(*old(g)).contains_key(a),
        slab_nodes(*old(g)).contains_key(b),
        edges_counted(slab_edges(*old(g)), handle_space()) < handle_limit(),
    ensures
        !slab_edges(*old(g)).contains_key(e),
        slab_edges(*final(g)) == slab_edges(*old(g)).insert(e, (Edge { u: a, v: b, weight })),
        slab_nodes(*final(g)) == slab_nodes(*old(g)),
{
    g.add_edge(NodeIndex::new(a as usize), NodeIndex::new(b as usize), weight).index() as u32
}

/// `StableGraph::contains_edge` on an undirected graph: whether some live
/// edge runs between `a` and `b`, in either direction.
#[verifier::external_body]
pub(crate) fn slab_contains_edge(g: &Slab, a: u32, b: u32) -> (r: bool)
    ensures
        r == (exists|e: u32| #[trigger]
            slab_edges(*g).contains_key(e) && slab_edges(*g)[e].joins(a, b)),
{
    g.contains_edge(NodeIndex::new(a as usize), NodeIndex::new(b as usize))
}

/// `StableGraph::edge_weight`: the weight under an edge handle, if it is
/// live.
#[verifier::external_body]
pub(crate) fn slab_edge_weight(g: &Slab, e: u32) -> (r: Option<i64>)
    ensures
        match r {
            Some(w) => slab_edges(*g).contains_key(e) && w == slab_edges(*g)[e].weight,
            None => !slab_edges(*g).contains_key(e),
        },
{
    g.edge_weight(EdgeIndex::new(e as usize)).copied()
}

/// `StableGraph`'s `IndexMut` by edge handle, used to overwrite the weight
/// of an edge. Its endpoints and everything else stay. petgraph panics
/// where the edge is not live.
#[verifier::external_body]
pub(crate) fn slab_set_edge_weight(g: &mut Slab, e: u32, weight: i64)
    requires
        slab_edges(*old(g)).contains_key(e),
    ensures
        slab_edges(*final(g)) == slab_edges(*old(g)).insert(
            e,
            (Edge { u: slab_edges(*old(g))[e].u, v: slab_edges(*old(g))[e].v, weight }),
        ),
        slab_nodes(*final(g)) == slab_nodes(*old(g)),
{
    g[EdgeIndex::new(e as usize)] = weight;
}

/// `StableGraph::remove_edge`: the edge leaves; no other handle changes.
#[verifier::external_body]
pub(crate) fn slab_remove_edge(g: &mut Slab, e: u32)
    ensures
        slab_edges(*final(g)) == slab_edges(*old(g)).remove(e),
        slab_nodes(*final(g)) == slab_nodes(*old(g)),
{
    g.remove_edge(EdgeIndex::new(e as usize));
}

/// `StableGraph::neighbors_undirected`, collected: for every edge at `a`
/// its other endpoint, once per edge (a self-loop gives `a` once), in an
/// order that petgraph leaves open.
#[verifier::external_body]
pub(crate) fn slab_neighbors(g: &Slab, a: u32) -> (r: Vec<u32>)
    ensures
        r@.len() == links_at(slab_edges(*g), a, handle_space()),
        forall|b: u32| #[trigger]
            r@.to_multiset().count(b) == links_between(slab_edges(*g), a, b, handle_space()),
{
    g.neighbors_undirected(NodeIndex::new(a as usize)).map(|n| n.index() as u32).collect()
}

/// `StableGraph::edge_references`, collected: every live edge with its
/// endpoints and weight, by increasing handle.
#[verifier::external_body]
pub(crate) fn slab_edge_list(g: &Slab) -> (r: Vec<Edge>)
    ensures
        r@ == edges_below(slab_edges(*g), handle_space()),
{
    g.edge_references()
        .map(|e| Edge::new(e.source().index() as u32, e.target().index() as u32, *e.weight()))
        .collect()
}

/// `StableGraph::node_weights`, collected: a copy of every live node's
/// payload, by increasing handle.
#[verifier::external_body]
pub(crate) fn slab_node_list(g: &Slab) -> (r: Vec<Node>)
    ensures
        node_views(r@) == nodes_below(slab_nodes(*g), handle_space()),
{
    g.node_weights().cloned().collect()
}

/// `StableGraph::clone`: a slab with the same tables under the same
/// handles.
#[verifier::external_body]
pub(crate) fn slab_clone(g: &Slab) -> (c: Slab)
    ensures
        slab_nodes(c) == slab_nodes(*g),
        slab_edges(c) == slab_edges(*g),
{
    g.clone()
}

} // verus!
