use mesh_topology::export::{graph_edge_segments, node_index_to_node_id, EdgeSegment};
use mesh_topology::graph::Graph;
use mesh_topology::types::GeoPosition;

fn at(latitude: i32, longitude: i32) -> Option<GeoPosition> {
    Some(GeoPosition { latitude, longitude, altitude: 12 })
}

#[test]
fn segments_need_both_positions() {
    let mut g = Graph::new();
    for n in ["a", "b", "c", "d"] {
        g.add_node(n.to_string()).unwrap();
    }
    g.add_edge("a".to_string(), "b".to_string(), 1).unwrap();
    g.add_edge("b".to_string(), "c".to_string(), 1).unwrap();
    g.add_edge("c".to_string(), "d".to_string(), 1).unwrap();
    g.add_edge("b".to_string(), "a".to_string(), 1).unwrap();
    assert!(graph_edge_segments(&g).is_empty());
    g.set_node_position("a".to_string(), at(10, 20)).unwrap();
    assert!(graph_edge_segments(&g).is_empty());
    g.set_node_position("b".to_string(), at(30, 40)).unwrap();
    g.set_node_position("c".to_string(), at(0, 40)).unwrap();
    g.set_node_position("d".to_string(), at(50, 0)).unwrap();
    let a = GeoPosition { latitude: 10, longitude: 20, altitude: 12 };
    let b = GeoPosition { latitude: 30, longitude: 40, altitude: 12 };
    assert_eq!(
        graph_edge_segments(&g),
        vec![
            EdgeSegment { id: "a-b".to_string(), from: a, to: b },
            EdgeSegment { id: "b-a".to_string(), from: b, to: a },
        ]
    );
    g.set_node_position("c".to_string(), at(1, 40)).unwrap();
    let ids: Vec<String> = graph_edge_segments(&g).into_iter().map(|s| s.id).collect();
    assert_eq!(ids, vec!["a-b".to_string(), "b-c".to_string(), "b-a".to_string()]);
}

#[test]
fn node_ids_are_spelled_by_keys() {
    let mut g = Graph::new();
    let a = g.add_node("42".to_string()).unwrap();
    let b = g.add_node("radio".to_string()).unwrap();
    let c = g.add_node("4294967295".to_string()).unwrap();
    let d = g.add_node("4294967296".to_string()).unwrap();
    let e = g.add_node("-1".to_string()).unwrap();
    let f = g.add_node("".to_string()).unwrap();
    let z = g.add_node("007".to_string()).unwrap();
    assert_eq!(node_index_to_node_id(a, &g), Some(42));
    assert_eq!(node_index_to_node_id(b, &g), None);
    assert_eq!(node_index_to_node_id(c, &g), Some(u32::MAX));
    assert_eq!(node_index_to_node_id(d, &g), None);
    assert_eq!(node_index_to_node_id(e, &g), None);
    assert_eq!(node_index_to_node_id(f, &g), None);
    assert_eq!(node_index_to_node_id(z, &g), Some(7));
    assert_eq!(node_index_to_node_id(z + 1, &g), None);
    g.remove_node(a).unwrap();
    assert_eq!(node_index_to_node_id(a, &g), None);
}

#[test]
fn node_ids_take_a_plus_sign_and_nothing_else() {
    let mut g = Graph::new();
    let cases: [(&str, Option<u32>); 12] = [
        ("+5", Some(5)),
        ("+", None),
        ("++5", None),
        ("5+", None),
        (" 5", None),
        ("5 ", None),
        ("1_0", None),
        ("0x10", None),
        ("\u{0663}", None),
        ("0", Some(0)),
        ("+0", Some(0)),
        ("00000000000000000001", Some(1)),
    ];
    for (text, want) in cases {
        let h = g.add_node(text.to_string()).unwrap();
        assert_eq!(node_index_to_node_id(h, &g), want);
    }
}
