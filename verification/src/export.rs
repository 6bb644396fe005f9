//! What the outside world is told of the graph: the line segments of the
//! edges whose endpoints have a known position, and the numeric id that a
//! node's key stands for.

use crate::graph::Graph;
use crate::model::GraphView;
use crate::types::{Edge, GeoPosition};
use vstd::prelude::*;
use vstd::string::StringExecFns;

verus! {

/// The line that an edge draws on a map, named after its two nodes.
#[derive(Clone, Debug, PartialEq, Eq)]
pub struct EdgeSegment {
    /// The keys of the two nodes, joined by a hyphen.
    pub id: String,
    pub from: GeoPosition,
    pub to: GeoPosition,
}

/// What a segment is, as a mathematical value.
pub struct EdgeSegmentView {
    pub id: Seq<char>,
    pub from: GeoPosition,
    pub to: GeoPosition,
}

impl View for EdgeSegment {
    type V = EdgeSegmentView;

    open spec fn view(&self) -> EdgeSegmentView {
        EdgeSegmentView { id: self.id@, from: self.from, to: self.to }
    }
}

/// The views of a sequence of segments.
pub open spec fn segment_views(segments: Seq<EdgeSegment>) -> Seq<EdgeSegmentView> {
    Seq::new(segments.len(), |i: int| segments[i]@)
}

/// The position of a node, where it is live and its position is known.
pub open spec fn known_position(g: GraphView, h: u32) -> Option<GeoPosition> {
    if g.nodes.contains_key(h) {
        match g.nodes[h].position {
            Some(p) => if p.is_known() {
                Some(p)
            } else {
                None
            },
            None => None,
        }
    } else {
        None
    }
}

/// The segment that an edge draws, where both its endpoints have a known
/// position.
pub open spec fn segment_of(g: GraphView, e: Edge) -> Option<EdgeSegmentView> {
    match (known_position(g, e.u), known_position(g, e.v)) {
        (Some(from), Some(to)) => Some(
            EdgeSegmentView { id: g.nodes[e.u].name + "-"@ + g.nodes[e.v].name, from, to },
        ),
        _ => None,
    }
}

/// The segments that a sequence of edges draws, in the order of the edges.
pub open spec fn segments_of(g: GraphView, edges: Seq<Edge>) -> Seq<EdgeSegmentView>
    decreases edges.len(),
{
    if edges.len() == 0 {
        Seq::empty()
    } else {
        match segment_of(g, edges.last()) {
            Some(segment) => segments_of(g, edges.drop_last()).push(segment),
            None => segments_of(g, edges.drop_last()),
        }
    }
}

/// Returns, in the order of `get_edges`, the segment of every edge whose
/// two endpoints have a known position.
pub fn graph_edge_segments(graph: &Graph) -> (segments: Vec<EdgeSegment>)
    ensures
        segment_views(segments@) == segments_of(graph@, graph@.edge_list()),
{
    let edges = graph.get_edges();
    let mut segments: Vec<EdgeSegment> = Vec::new();
    let mut j: usize = 0;
    proof {
        assert(edges@.take(0) =~= Seq::<Edge>::empty());
        assert(segment_views(segments@) =~= segments_of(graph@, edges@.take(0)));
    }
    while j < edges.len()
        invariant
            j <= edges.len(),
            segment_views(segments@) == segments_of(graph@, edges@.take(j as int)),
        decreases edges.len() - j,
    {
        let edge = edges[j];
        let ghost earlier = segment_views(segments@);
        proof {
            assert(edges@.take(j + 1).drop_last() =~= edges@.take(j as int));
            assert(edges@.take(j + 1).last() == edge);
        }
        let u = graph.get_node(edge.u);
        let v = graph.get_node(edge.v);
        match (u, v) {
            (Some(u), Some(v)) => {
                match (u.position, v.position) {
                    (Some(from), Some(to)) => {
                        if from.known() && to.known() {
                            let id = u.name.concat("-").concat(v.name.as_str());
                            segments.push(EdgeSegment { id, from, to });
                            proof {
                                assert(segment_views(segments@) =~= earlier.push(
                                    segment_of(graph@, edge).unwrap(),
                                ));
                            }
                        }
                    },
                    _ => {},
                }
            },
            _ => {},
        }
        j = j + 1;
    }
    proof {
        assert(edges@.take(j as int) =~= edges@);
    }
    segments
}

/// The value of a decimal digit; none for any other character.
pub open spec fn digit_value(c: char) -> Option<nat> {
    if 48 <= c as u32 <= 57 {
        Some((c as u32 - 48) as nat)
    } else {
        None
    }
}

/// The number that a run of decimal digits spells, however long; none
/// where a character is no digit. The empty run spells 0.
pub open spec fn decimal_value(digits: Seq<char>) -> Option<nat>
    decreases digits.len(),
{
    if digits.len() == 0 {
        Some(0)
    } else {
        match (decimal_value(digits.drop_last()), digit_value(digits.last())) {
            (Some(before), Some(digit)) => Some(10 * before + digit),
            _ => None,
        }
    }
}

/// The number that a key spells: an optional `+`, then one or more decimal
/// digits whose value fits 32 bits. Any other key spells none.
pub open spec fn parsed_node_id(key: Seq<char>) -> Option<u32> {
    let digits = if key.len() > 0 && key[0] == '+' {
        key.skip(1)
    } else {
        key
    };
    if digits.len() == 0 {
        None
    } else {
        match decimal_value(digits) {
            Some(value) => if value <= u32::MAX {
                Some(value as u32)
            } else {
                None
            },
            None => None,
        }
    }
}

/// `str::parse::<u32>`, which reads decimal text: an optional `+` sign
/// followed by digits only, at least one of them; anything else, and a
/// value that does not fit the type, is an error, which is `None` here.
#[verifier::external_body]
fn parse_node_id(key: &str) -> (id: Option<u32>)
    ensures
        id == parsed_node_id(key@),
{
    key.parse::<u32>().ok()
}

/// Returns the numeric id of the node under the given handle: the number
/// that its key spells. There is none where the handle names no node or
/// the key spells no number.
pub fn node_index_to_node_id(nodeindex: u32, graph: &Graph) -> (id: Option<u32>)
    ensures
        id == (if graph@.nodes.contains_key(nodeindex) {
            parsed_node_id(graph@.nodes[nodeindex].name)
        } else {
            None
        }),
{
    match graph.get_node(nodeindex) {
        Some(node) => parse_node_id(node.name.as_str()),
        None => None,
    }
}

} // verus!
