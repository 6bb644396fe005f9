//! The plain data of the topology: nodes, edges, positions and errors.

use vstd::prelude::*;

verus! {

/// A geographic fix in integer units: latitude and longitude in units of
/// 1e-7 degree, altitude in metres.
#[derive(Clone, Copy, Debug, PartialEq, Eq, Structural)]
pub struct GeoPosition {
    pub latitude: i32,
    pub longitude: i32,
    pub altitude: i32,
}

impl GeoPosition {
    /// A fix counts as known when neither coordinate is zero.
    pub open spec fn is_known(self) -> bool {
        self.latitude != 0 && self.longitude != 0
    }

    /// Whether the fix counts as known.
    pub fn known(&self) -> (r: bool)
        ensures
            r == self.is_known(),
    {
        self.latitude != 0 && self.longitude != 0
    }
}

/// What a node is, as a mathematical value.
pub struct NodeView {
    pub name: Seq<char>,
    pub weighted_degree: int,
    pub position: Option<GeoPosition>,
}

/// A radio in the mesh. `weighted_degree` is derived from the incident
/// edges and is maintained by the graph; it is twice the sum of their
/// weights.
#[derive(Debug)]
pub struct Node {
    pub name: String,
    pub weighted_degree: i128,
    pub position: Option<GeoPosition>,
}

impl View for Node {
    type V = NodeView;

    open spec fn view(&self) -> NodeView {
        NodeView {
            name: self.name@,
            weighted_degree: self.weighted_degree as int,
            position: self.position,
        }
    }
}

impl Node {
    /// A node with no links and no known position.
    pub fn new(name: String) -> (node: Node)
        ensures
            node@ == (NodeView { name: name@, weighted_degree: 0, position: None }),
    {
        Node { name, weighted_degree: 0, position: None }
    }
}

impl Clone for Node {
    /// A copy with the same key, degree and position.
    fn clone(&self) -> (copy: Node)
        ensures
            copy@ == self@,
    {
        Node {
            name: self.name.clone(),
            weighted_degree: self.weighted_degree,
            position: self.position,
        }
    }
}

/// An observed link between two nodes, named by their handles. Two edges
/// between the same pair are distinct entities.
#[derive(Clone, Copy, Debug, PartialEq, Eq, Structural)]
pub struct Edge {
    pub u: u32,
    pub v: u32,
    pub weight: i64,
}

impl Edge {
    /// An edge from `u` to `v` of the given weight.
    pub fn new(u: u32, v: u32, weight: i64) -> (edge: Edge)
        ensures
            edge == (Edge { u, v, weight }),
    {
        Edge { u, v, weight }
    }

    /// The edge has `h` as one of its endpoints.
    pub open spec fn touches(self, h: u32) -> bool {
        self.u == h || self.v == h
    }

    /// The edge runs between `a` and `b`, in either direction.
    pub open spec fn joins(self, a: u32, b: u32) -> bool {
        (self.u == a && self.v == b) || (self.u == b && self.v == a)
    }
}

/// Why a mutation of the graph was not carried out. The graph is left
/// unchanged whenever one of these is returned.
#[derive(Clone, Copy, Debug, PartialEq, Eq, Structural)]
pub enum GraphError {
    /// A node with this key is already present.
    DuplicateKey,
    /// A key or a handle names no node of the graph.
    UnknownNode,
    /// No edge stands at the given place between the two nodes.
    UnknownEdge,
    /// The handle space of the graph is exhausted.
    CapacityExceeded,
}

/// One link as a device reports it: the keys of its two ends, its weight,
/// and the position of each end where the device knows it.
#[derive(Clone, Debug, PartialEq, Eq)]
pub struct NeighborLink {
    pub node: String,
    pub neighbor: String,
    pub weight: i64,
    pub node_position: Option<GeoPosition>,
    pub neighbor_position: Option<GeoPosition>,
}

/// What a reported link is, as a mathematical value.
pub struct NeighborLinkView {
    pub node: Seq<char>,
    pub neighbor: Seq<char>,
    pub weight: i64,
    pub node_position: Option<GeoPosition>,
    pub neighbor_position: Option<GeoPosition>,
}

impl View for NeighborLink {
    type V = NeighborLinkView;

    open spec fn view(&self) -> NeighborLinkView {
        NeighborLinkView {
            node: self.node@,
            neighbor: self.neighbor@,
            weight: self.weight,
            node_position: self.node_position,
            neighbor_position: self.neighbor_position,
        }
    }
}

} // verus!
