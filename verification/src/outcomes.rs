//! What each mutation of the graph does, as a relation between the
//! topology before the call, the arguments, the topology after it and the
//! result.

use crate::model::GraphView;
use crate::store::handle_limit;
use crate::types::{GeoPosition, GraphError, NeighborLinkView};
use vstd::prelude::*;

verus! {

/// Why `add_node` refuses a key, if it does: the key is taken, or the
/// graph holds as many nodes as there are handles.
pub open spec fn add_node_refusal(g: GraphView, name: Seq<char>) -> Option<GraphError> {
    if g.index.contains_key(name) {
        Some(GraphError::DuplicateKey)
    } else if g.order() >= handle_limit() {
        Some(GraphError::CapacityExceeded)
    } else {
        None
    }
}

/// What one call of `add_node` does: it refuses and changes nothing, or
/// stores the node under a handle that was free.
pub open spec fn add_node_outcome(
    before: GraphView,
    name: Seq<char>,
    after: GraphView,
    r: Result<u32, GraphError>,
) -> bool {
    match r {
        Ok(h) => add_node_refusal(before, name).is_none() && !before.nodes.contains_key(h) && after
            == before.with_node(h, name),
        Err(why) => add_node_refusal(before, name) == Some(why) && after == before,
    }
}

/// Why `add_edge` refuses, if it does: a key names no node, or the graph
/// holds as many edges as there are handles.
pub open spec fn add_edge_refusal(g: GraphView, u: Seq<char>, v: Seq<char>) -> Option<GraphError> {
    if !g.index.contains_key(u) || !g.index.contains_key(v) {
        Some(GraphError::UnknownNode)
    } else if g.size() >= handle_limit() {
        Some(GraphError::CapacityExceeded)
    } else {
        None
    }
}

/// What one call of `add_edge` does: it refuses and changes nothing, or
/// puts a new edge between the two nodes under a handle that was free.
pub open spec fn add_edge_outcome(
    before: GraphView,
    u: Seq<char>,
    v: Seq<char>,
    weight: i64,
    after: GraphView,
    r: Result<(), GraphError>,
) -> bool {
    match r {
        Ok(_) => add_edge_refusal(before, u, v).is_none() && exists|e: u32|
            !before.edges.contains_key(e) && after == #[trigger] before.with_link(
                e,
                before.index[u],
                before.index[v],
                weight,
            ),
        Err(why) => add_edge_refusal(before, u, v) == Some(why) && after == before,
    }
}

/// The ordinal that an optional parallel index stands for: the first edge
/// where none is given.
pub open spec fn ordinal(parallel_edge_idx: Option<usize>) -> int {
    match parallel_edge_idx {
        Some(i) => i as int,
        None => 0,
    }
}

/// What an optional flag stands for: `false` where none is given.
pub open spec fn flag(choice: Option<bool>) -> bool {
    match choice {
        Some(b) => b,
        None => false,
    }
}

/// Why `remove_edge` refuses, if it does: a key names no node, no edge
/// runs between the two nodes, or (where one edge is to leave) none has
/// the given ordinal.
pub open spec fn remove_edge_refusal(
    g: GraphView,
    u: Seq<char>,
    v: Seq<char>,
    i: int,
    all: bool,
) -> Option<GraphError> {
    if !g.index.contains_key(u) || !g.index.contains_key(v) {
        Some(GraphError::UnknownNode)
    } else if g.list(g.index[u], g.index[v]).len() == 0 {
        Some(GraphError::UnknownEdge)
    } else if !all && i >= g.list(g.index[u], g.index[v]).len() {
        Some(GraphError::UnknownEdge)
    } else {
        None
    }
}

/// What one call of `remove_edge` does: it refuses and changes nothing, or
/// takes out the edge at ordinal `i`, or every edge between the two nodes.
pub open spec fn remove_edge_outcome(
    before: GraphView,
    u: Seq<char>,
    v: Seq<char>,
    i: int,
    all: bool,
    after: GraphView,
    r: Result<(), GraphError>,
) -> bool {
    match r {
        Ok(_) => remove_edge_refusal(before, u, v, i, all).is_none() && after == (if all {
            before.without_links(before.index[u], before.index[v])
        } else {
            before.without_link(before.index[u], before.index[v], i)
        }),
        Err(why) => remove_edge_refusal(before, u, v, i, all) == Some(why) && after == before,
    }
}

/// What one call of `update_edge` does. Where no edge runs between the two
/// nodes (or a key names no node) it does what `add_edge` does. Otherwise
/// it replaces the weight of the edge at ordinal `i`, or refuses where no
/// edge has that ordinal.
pub open spec fn update_edge_outcome(
    before: GraphView,
    u: Seq<char>,
    v: Seq<char>,
    weight: i64,
    i: int,
    after: GraphView,
    r: Result<(), GraphError>,
) -> bool {
    if before.index.contains_key(u) && before.index.contains_key(v) && before.list(
        before.index[u],
        before.index[v],
    ).len() > 0 {
        let list = before.list(before.index[u], before.index[v]);
        match r {
            Ok(_) => i < list.len() && after == before.reweighted(list[i], weight),
            Err(why) => why == GraphError::UnknownEdge && i >= list.len() && after == before,
        }
    } else {
        add_edge_outcome(before, u, v, weight, after, r)
    }
}

/// What one call of `remove_node` does: it refuses a handle that names no
/// node and changes nothing, or takes the node out with every edge at it.
pub open spec fn remove_node_outcome(
    before: GraphView,
    h: u32,
    after: GraphView,
    r: Result<(), GraphError>,
) -> bool {
    match r {
        Ok(_) => before.nodes.contains_key(h) && after == before.without_node(h),
        Err(why) => why == GraphError::UnknownNode && !before.nodes.contains_key(h) && after
            == before,
    }
}

/// What `set_node_position` does: it refuses a key that names no node,
/// or stores the position with the node.
pub open spec fn set_node_position_outcome(
    before: GraphView,
    name: Seq<char>,
    position: Option<GeoPosition>,
    after: GraphView,
    r: Result<(), GraphError>,
) -> bool {
    match r {
        Ok(_) => before.index.contains_key(name) && after == before.with_position(
            before.index[name],
            position,
        ),
        Err(why) => why == GraphError::UnknownNode && !before.index.contains_key(name) && after
            == before,
    }
}

impl GraphView {
    /// `after` is this topology with a node for the key `name`: the same
    /// where the key was there, with a new node otherwise.
    pub open spec fn gains_node(self, name: Seq<char>, after: GraphView) -> bool {
        if self.index.contains_key(name) {
            after == self
        } else {
            exists|h: u32|
                !self.nodes.contains_key(h) && after == #[trigger] self.with_node(h, name)
        }
    }

    /// The topology once a reported position was stored with the node of
    /// the key `name`; where none was reported, the node keeps what it had.
    pub open spec fn located(self, name: Seq<char>, position: Option<GeoPosition>) -> GraphView {
        match position {
            Some(p) => self.with_position(self.index[name], Some(p)),
            None => self,
        }
    }

    /// Merging a link needs room for two nodes and one edge.
    pub open spec fn lacks_room(self) -> bool {
        self.order() + 2 > handle_limit() || self.size() + 1 > handle_limit()
    }

    /// `after` is this topology with the far end of a reported link and
    /// the link itself merged in: the far end is a node with its reported
    /// position, and `update_edge` has set the weight between the two ends.
    pub open spec fn merged_far_end(self, link: NeighborLinkView, after: GraphView) -> bool {
        exists|with_node: GraphView| #[trigger]
            self.gains_node(link.neighbor, with_node) && update_edge_outcome(
                with_node.located(link.neighbor, link.neighbor_position),
                link.node,
                link.neighbor,
                link.weight,
                0,
                after,
                Ok(()),
            )
    }

    /// `after` is this topology with a reported link merged in: both ends
    /// are nodes, each with its reported position, and `update_edge` has
    /// set the weight between them.
    pub open spec fn merged(self, link: NeighborLinkView, after: GraphView) -> bool {
        exists|with_node: GraphView| #[trigger]
            self.gains_node(link.node, with_node) && with_node.located(
                link.node,
                link.node_position,
            ).merged_far_end(link, after)
    }
}

/// What one call of `merge_link` does: it refuses for want of room and
/// changes nothing, or merges the link.
pub open spec fn merge_link_outcome(
    before: GraphView,
    link: NeighborLinkView,
    after: GraphView,
    r: Result<(), GraphError>,
) -> bool {
    match r {
        Ok(_) => !before.lacks_room() && before.merged(link, after),
        Err(why) => why == GraphError::CapacityExceeded && before.lacks_room() && after == before,
    }
}

} // verus!
