use mesh_topology::graph::Graph;
use mesh_topology::types::{Edge, GeoPosition, GraphError, NeighborLink, Node};

fn key(s: &str) -> String {
    s.to_string()
}

fn triangle() -> Graph {
    let mut g = Graph::new();
    g.add_node(key("u")).unwrap();
    g.add_node(key("v")).unwrap();
    g.add_node(key("w")).unwrap();
    g.add_edge(key("u"), key("v"), 1).unwrap();
    g.add_edge(key("u"), key("w"), 1).unwrap();
    g.add_edge(key("v"), key("w"), 35).unwrap();
    g
}

fn degree(g: &Graph, name: &str) -> i128 {
    let h = g.get_node_idx(key(name)).unwrap();
    g.get_node(h).unwrap().weighted_degree
}

#[test]
fn initialize_graph() {
    // Create a graph
    let mut g = Graph::new();

    // Create a few nodes and edges and add to graph
    let u: String = "u".to_string();
    let v: String = "v".to_string();
    let w: String = "w".to_string();

    let _u_idx = g.add_node(u.clone());
    let _v_idx = g.add_node(v.clone());
    let _w_idx = g.add_node(w.clone());

    assert_eq!(g.get_order(), 3);

    let _ = g.add_edge(u.clone(), v.clone(), 1);
    let _ = g.add_edge(u.clone(), w.clone(), 1);
    let _ = g.add_edge(v.clone(), w.clone(), 35);

    assert_eq!(g.get_size(), 3);

    let _ = g.update_edge(u.clone(), v.clone(), 11, None);
    let _ = g.remove_edge(u.clone(), w.clone(), None, Some(true));

    assert_eq!(g.get_size(), 2);
}

#[test]
fn new_graph_is_empty() {
    let g = Graph::new();
    assert_eq!(g.get_order(), 0);
    assert_eq!(g.get_size(), 0);
    assert!(g.get_nodes().is_empty());
    assert!(g.get_edges().is_empty());
    assert!(g.get_cumulative_edge_weights().is_empty());
}

#[test]
fn node_new_has_no_links_and_no_position() {
    let n = Node::new(key("radio"));
    assert_eq!(n.name, "radio");
    assert_eq!(n.weighted_degree, 0);
    assert_eq!(n.position, None);
    let c = n.clone();
    assert_eq!(c.name, "radio");
    assert_eq!(c.weighted_degree, 0);
}

#[test]
fn edge_new_keeps_its_fields() {
    let e = Edge::new(3, 4, -9);
    assert_eq!(e, Edge { u: 3, v: 4, weight: -9 });
}

#[test]
fn order_counts_distinct_keys() {
    let mut g = Graph::new();
    let names = ["a", "b", "a", "c", "b", "a", "d"];
    for n in names {
        let _ = g.add_node(key(n));
    }
    assert_eq!(g.get_order(), 4);
}

#[test]
fn duplicate_key_is_refused_and_changes_nothing() {
    let mut g = Graph::new();
    let h = g.add_node(key("a")).unwrap();
    assert_eq!(g.add_node(key("a")), Err(GraphError::DuplicateKey));
    assert_eq!(g.get_order(), 1);
    assert_eq!(g.get_node_idx(key("a")), Some(h));
}

#[test]
fn handles_are_distinct_and_found_again() {
    let mut g = Graph::new();
    let a = g.add_node(key("a")).unwrap();
    let b = g.add_node(key("b")).unwrap();
    assert_ne!(a, b);
    assert_eq!(g.get_node_idx(key("a")), Some(a));
    assert_eq!(g.get_node_idx(key("b")), Some(b));
    assert_eq!(g.get_node_idx(key("c")), None);
    assert_eq!(g.get_node(a).unwrap().name, "a");
    assert_eq!(g.get_node(b).unwrap().name, "b");
    assert!(g.get_node(b + 1).is_none());
}

#[test]
fn add_edge_reports_weight_and_doubles_into_degrees() {
    let mut g = Graph::new();
    g.add_node(key("u")).unwrap();
    g.add_node(key("v")).unwrap();
    g.add_node(key("w")).unwrap();
    assert_eq!(g.add_edge(key("u"), key("v"), 7), Ok(()));
    assert_eq!(g.get_edge_weight(key("u"), key("v"), Some(0), Some(false)), 7);
    assert_eq!(g.get_edge_weight(key("v"), key("u"), None, None), 7);
    assert_eq!(degree(&g, "u"), 14);
    assert_eq!(degree(&g, "v"), 14);
    assert_eq!(degree(&g, "w"), 0);
    assert_eq!(g.get_size(), 1);
}

#[test]
fn degrees_add_up_over_edges() {
    let g = triangle();
    assert_eq!(degree(&g, "u"), 4);
    assert_eq!(degree(&g, "v"), 72);
    assert_eq!(degree(&g, "w"), 72);
}

#[test]
fn add_edge_needs_both_nodes() {
    let mut g = Graph::new();
    g.add_node(key("u")).unwrap();
    assert_eq!(g.add_edge(key("u"), key("x"), 1), Err(GraphError::UnknownNode));
    assert_eq!(g.add_edge(key("x"), key("u"), 1), Err(GraphError::UnknownNode));
    assert_eq!(g.get_size(), 0);
    assert_eq!(degree(&g, "u"), 0);
}

#[test]
fn parallel_edges_sum_and_are_told_apart() {
    let mut g = Graph::new();
    g.add_node(key("u")).unwrap();
    g.add_node(key("v")).unwrap();
    let weights: [i64; 4] = [3, 5, 8, 13];
    for w in weights {
        g.add_edge(key("u"), key("v"), w).unwrap();
    }
    assert_eq!(g.get_size(), 4);
    assert_eq!(g.get_edge_weight(key("u"), key("v"), Some(0), Some(false)), 29);
    assert_eq!(g.get_edge_weight(key("v"), key("u"), None, None), 29);
    for (i, w) in weights.iter().enumerate() {
        assert_eq!(g.get_edge_weight(key("u"), key("v"), Some(i), Some(true)), *w as i128);
        assert_eq!(g.get_edge_weight(key("v"), key("u"), Some(i), Some(true)), *w as i128);
    }
    assert_eq!(g.get_edge_weight(key("u"), key("v"), None, Some(true)), 3);
    assert_eq!(g.get_edge_weight(key("u"), key("v"), Some(4), Some(true)), 0);
    assert_eq!(degree(&g, "u"), 58);
    assert_eq!(degree(&g, "v"), 58);
    assert_eq!(g.degree_of(key("u")), 4);
}

#[test]
fn edge_weight_of_unknown_things_is_zero() {
    let g = triangle();
    assert_eq!(g.get_edge_weight(key("u"), key("x"), None, None), 0);
    assert_eq!(g.get_edge_weight(key("x"), key("u"), None, None), 0);
    let mut h = Graph::new();
    h.add_node(key("a")).unwrap();
    h.add_node(key("b")).unwrap();
    assert_eq!(h.get_edge_weight(key("a"), key("b"), None, None), 0);
    assert_eq!(h.get_edge_weight(key("a"), key("b"), Some(0), Some(true)), 0);
}

#[test]
fn remove_undoes_add() {
    let mut g = triangle();
    let before_u = degree(&g, "u");
    let before_v = degree(&g, "v");
    g.add_edge(key("u"), key("v"), 20).unwrap();
    assert_eq!(degree(&g, "u"), before_u + 40);
    assert_eq!(degree(&g, "v"), before_v + 40);
    assert_eq!(g.remove_edge(key("u"), key("v"), Some(1), Some(false)), Ok(()));
    assert_eq!(degree(&g, "u"), before_u);
    assert_eq!(degree(&g, "v"), before_v);
    assert_eq!(g.get_size(), 3);
    assert_eq!(g.get_edge_weight(key("u"), key("v"), None, None), 1);
}

#[test]
fn remove_edge_refuses_what_is_not_there() {
    let mut g = triangle();
    assert_eq!(g.remove_edge(key("u"), key("x"), None, None), Err(GraphError::UnknownNode));
    assert_eq!(g.remove_edge(key("u"), key("v"), Some(1), None), Err(GraphError::UnknownEdge));
    assert_eq!(g.get_size(), 3);
    g.remove_edge(key("u"), key("v"), None, None).unwrap();
    assert_eq!(g.remove_edge(key("u"), key("v"), None, None), Err(GraphError::UnknownEdge));
    assert_eq!(g.remove_edge(key("v"), key("u"), None, Some(true)), Err(GraphError::UnknownEdge));
    assert_eq!(g.get_size(), 2);
}

#[test]
fn removing_one_edge_moves_the_last_into_its_place() {
    let mut g = Graph::new();
    g.add_node(key("u")).unwrap();
    g.add_node(key("v")).unwrap();
    for w in [10, 20, 30, 40] {
        g.add_edge(key("u"), key("v"), w).unwrap();
    }
    g.remove_edge(key("u"), key("v"), Some(1), None).unwrap();
    assert_eq!(g.get_edge_weight(key("u"), key("v"), Some(0), Some(true)), 10);
    assert_eq!(g.get_edge_weight(key("u"), key("v"), Some(1), Some(true)), 40);
    assert_eq!(g.get_edge_weight(key("u"), key("v"), Some(2), Some(true)), 30);
    assert_eq!(g.get_edge_weight(key("u"), key("v"), Some(3), Some(true)), 0);
    assert_eq!(g.get_edge_weight(key("v"), key("u"), Some(1), Some(true)), 40);
    assert_eq!(g.get_edge_weight(key("u"), key("v"), None, None), 80);
    assert_eq!(degree(&g, "u"), 160);
    assert_eq!(degree(&g, "v"), 160);
}

#[test]
fn removing_all_parallel_edges_clears_the_pair() {
    let mut g = triangle();
    g.add_edge(key("w"), key("u"), 4).unwrap();
    g.add_edge(key("u"), key("w"), 5).unwrap();
    assert_eq!(g.get_edge_weight(key("u"), key("w"), None, None), 10);
    assert_eq!(degree(&g, "u"), 22);
    assert_eq!(degree(&g, "w"), 90);
    assert_eq!(g.remove_edge(key("u"), key("w"), None, Some(true)), Ok(()));
    assert_eq!(g.get_size(), 2);
    assert_eq!(g.get_edge_weight(key("u"), key("w"), None, None), 0);
    assert_eq!(g.get_edge_weight(key("w"), key("u"), None, None), 0);
    assert_eq!(degree(&g, "u"), 2);
    assert_eq!(degree(&g, "w"), 70);
    assert_eq!(degree(&g, "v"), 72);
}

#[test]
fn update_edge_replaces_one_weight_only() {
    let mut g = triangle();
    assert_eq!(g.update_edge(key("u"), key("v"), 11, None), Ok(()));
    assert_eq!(g.get_size(), 3);
    assert_eq!(g.get_edge_weight(key("u"), key("v"), None, None), 11);
    assert_eq!(g.get_edge_weight(key("u"), key("w"), None, None), 1);
    assert_eq!(g.get_edge_weight(key("v"), key("w"), None, None), 35);
    assert_eq!(degree(&g, "u"), 24);
    assert_eq!(degree(&g, "v"), 92);
    assert_eq!(degree(&g, "w"), 72);
}

#[test]
fn update_edge_adds_where_there_is_none() {
    let mut g = Graph::new();
    g.add_node(key("u")).unwrap();
    g.add_node(key("v")).unwrap();
    assert_eq!(g.update_edge(key("u"), key("v"), 6, Some(3)), Ok(()));
    assert_eq!(g.get_size(), 1);
    assert_eq!(g.get_edge_weight(key("u"), key("v"), None, None), 6);
    assert_eq!(degree(&g, "u"), 12);
    assert_eq!(g.update_edge(key("u"), key("x"), 6, None), Err(GraphError::UnknownNode));
}

#[test]
fn update_edge_by_ordinal() {
    let mut g = Graph::new();
    g.add_node(key("u")).unwrap();
    g.add_node(key("v")).unwrap();
    g.add_edge(key("u"), key("v"), 1).unwrap();
    g.add_edge(key("u"), key("v"), 2).unwrap();
    assert_eq!(g.update_edge(key("v"), key("u"), 9, Some(1)), Ok(()));
    assert_eq!(g.get_edge_weight(key("u"), key("v"), Some(0), Some(true)), 1);
    assert_eq!(g.get_edge_weight(key("u"), key("v"), Some(1), Some(true)), 9);
    assert_eq!(degree(&g, "u"), 20);
    assert_eq!(g.update_edge(key("u"), key("v"), 9, Some(2)), Err(GraphError::UnknownEdge));
    assert_eq!(g.get_size(), 2);
    assert_eq!(g.update_edge(key("u"), key("v"), -4, None), Ok(()));
    assert_eq!(g.get_edge_weight(key("u"), key("v"), None, None), 5);
    assert_eq!(degree(&g, "v"), 10);
}

#[test]
fn remove_node_takes_its_edges_along() {
    let mut g = triangle();
    g.add_edge(key("w"), key("v"), 2).unwrap();
    let w = g.get_node_idx(key("w")).unwrap();
    assert_eq!(g.degree_of(key("u")), 2);
    assert_eq!(g.degree_of(key("v")), 3);
    assert_eq!(g.remove_node(w), Ok(()));
    assert_eq!(g.get_order(), 2);
    assert_eq!(g.get_size(), 1);
    assert_eq!(g.degree_of(key("u")), 1);
    assert_eq!(g.degree_of(key("v")), 1);
    assert_eq!(g.degree_of(key("w")), 0);
    assert_eq!(degree(&g, "u"), 2);
    assert_eq!(degree(&g, "v"), 2);
    assert_eq!(g.get_node_idx(key("w")), None);
    assert!(g.get_node(w).is_none());
    assert_eq!(g.get_edge_weight(key("v"), key("w"), None, None), 0);
    assert_eq!(g.add_edge(key("u"), key("w"), 1), Err(GraphError::UnknownNode));
    assert_eq!(g.remove_node(w), Err(GraphError::UnknownNode));
}

#[test]
fn a_removed_key_can_be_added_again() {
    let mut g = triangle();
    let w = g.get_node_idx(key("w")).unwrap();
    g.remove_node(w).unwrap();
    let again = g.add_node(key("w")).unwrap();
    assert_eq!(g.get_order(), 3);
    assert_eq!(g.get_node(again).unwrap().weighted_degree, 0);
    assert_eq!(g.degree_of(key("w")), 0);
    g.add_edge(key("w"), key("u"), 3).unwrap();
    assert_eq!(g.get_edge_weight(key("u"), key("w"), None, None), 3);
    assert_eq!(degree(&g, "u"), 8);
}

#[test]
fn self_loop_counts_once() {
    let mut g = Graph::new();
    g.add_node(key("u")).unwrap();
    g.add_edge(key("u"), key("u"), 5).unwrap();
    assert_eq!(g.get_size(), 1);
    assert_eq!(g.degree_of(key("u")), 1);
    assert_eq!(degree(&g, "u"), 10);
    assert_eq!(g.get_edge_weight(key("u"), key("u"), None, None), 5);
    assert_eq!(g.get_neighbors_idx(key("u")), vec![g.get_node_idx(key("u")).unwrap()]);
    g.add_edge(key("u"), key("u"), 6).unwrap();
    assert_eq!(g.get_edge_weight(key("u"), key("u"), None, None), 11);
    g.remove_edge(key("u"), key("u"), Some(0), None).unwrap();
    assert_eq!(g.get_edge_weight(key("u"), key("u"), None, None), 6);
    assert_eq!(degree(&g, "u"), 12);
    let u = g.get_node_idx(key("u")).unwrap();
    g.remove_node(u).unwrap();
    assert_eq!(g.get_order(), 0);
    assert_eq!(g.get_size(), 0);
}

#[test]
fn degree_of_counts_edges_not_weights() {
    let g = triangle();
    assert_eq!(g.degree_of(key("u")), 2);
    assert_eq!(g.degree_of(key("v")), 2);
    assert_eq!(g.degree_of(key("w")), 2);
    assert_eq!(g.degree_of(key("nobody")), 0);
}

#[test]
fn neighbors_appear_once_per_edge() {
    let mut g = triangle();
    g.add_edge(key("v"), key("u"), 2).unwrap();
    let u = g.get_node_idx(key("u")).unwrap();
    let v = g.get_node_idx(key("v")).unwrap();
    let w = g.get_node_idx(key("w")).unwrap();
    let mut handles = g.get_neighbors_idx(key("u"));
    handles.sort();
    let mut want = vec![v, v, w];
    want.sort();
    assert_eq!(handles, want);
    let mut names: Vec<String> = g.get_neighbors(key("u")).into_iter().map(|n| n.name).collect();
    names.sort();
    assert_eq!(names, vec![key("v"), key("v"), key("w")]);
    assert!(g.get_neighbors_idx(key("nobody")).is_empty());
    assert!(g.get_neighbors(key("nobody")).is_empty());
    assert_ne!(u, v);
}

#[test]
fn neighbors_carry_their_degrees() {
    let g = triangle();
    let around_u = g.get_neighbors(key("u"));
    assert_eq!(around_u.len(), 2);
    for n in around_u {
        assert_eq!(n.weighted_degree, 72);
    }
}

#[test]
fn listings_go_by_handle() {
    let g = triangle();
    let names: Vec<String> = g.get_nodes().into_iter().map(|n| n.name).collect();
    assert_eq!(names, vec![key("u"), key("v"), key("w")]);
    let u = g.get_node_idx(key("u")).unwrap();
    let v = g.get_node_idx(key("v")).unwrap();
    let w = g.get_node_idx(key("w")).unwrap();
    assert_eq!(
        g.get_edges(),
        vec![Edge::new(u, v, 1), Edge::new(u, w, 1), Edge::new(v, w, 35)]
    );
    assert_eq!(g.get_edges(), g.get_edges());
}

#[test]
fn cumulative_weights_run_up_doubled() {
    let mut g = triangle();
    assert_eq!(g.get_cumulative_edge_weights(), vec![2, 4, 74]);
    g.update_edge(key("u"), key("v"), 11, None).unwrap();
    assert_eq!(g.get_cumulative_edge_weights(), vec![22, 24, 94]);
    g.remove_edge(key("u"), key("w"), None, Some(true)).unwrap();
    assert_eq!(g.get_cumulative_edge_weights(), vec![22, 92]);
}

#[test]
fn clone_shares_nothing() {
    let mut g = triangle();
    let copy = g.clone();
    g.add_node(key("x")).unwrap();
    g.add_edge(key("x"), key("u"), 9).unwrap();
    g.remove_edge(key("v"), key("w"), None, None).unwrap();
    assert_eq!(copy.get_order(), 3);
    assert_eq!(copy.get_size(), 3);
    assert_eq!(copy.get_node_idx(key("x")), None);
    assert_eq!(copy.get_edge_weight(key("v"), key("w"), None, None), 35);
    assert_eq!(degree(&copy, "u"), 4);
    assert_eq!(copy.get_node_idx(key("u")), g.get_node_idx(key("u")));
    assert_eq!(g.get_order(), 4);
    assert_eq!(g.get_size(), 3);
    let mut second = copy.clone();
    second.add_edge(key("u"), key("v"), 1).unwrap();
    assert_eq!(second.get_edge_weight(key("u"), key("v"), None, None), 2);
    assert_eq!(copy.get_edge_weight(key("u"), key("v"), None, None), 1);
}

#[test]
fn both_orderings_of_a_pair_agree() {
    let mut g = triangle();
    g.add_edge(key("v"), key("u"), 4).unwrap();
    g.add_edge(key("u"), key("v"), 6).unwrap();
    g.update_edge(key("v"), key("u"), 8, Some(1)).unwrap();
    g.remove_edge(key("u"), key("v"), Some(0), None).unwrap();
    for (a, b) in [("u", "v"), ("u", "w"), ("v", "w"), ("u", "u")] {
        assert_eq!(
            g.get_edge_weight(key(a), key(b), None, None),
            g.get_edge_weight(key(b), key(a), None, None)
        );
        for i in 0..3 {
            assert_eq!(
                g.get_edge_weight(key(a), key(b), Some(i), Some(true)),
                g.get_edge_weight(key(b), key(a), Some(i), Some(true))
            );
        }
    }
    assert_eq!(g.get_edge_weight(key("u"), key("v"), Some(0), Some(true)), 6);
    assert_eq!(g.get_edge_weight(key("u"), key("v"), Some(1), Some(true)), 8);
}

#[test]
fn end_to_end() {
    let mut g = Graph::new();
    g.add_node(key("u")).unwrap();
    g.add_node(key("v")).unwrap();
    g.add_node(key("w")).unwrap();
    assert_eq!(g.get_order(), 3);
    g.add_edge(key("u"), key("v"), 1).unwrap();
    g.add_edge(key("u"), key("w"), 1).unwrap();
    g.add_edge(key("v"), key("w"), 35).unwrap();
    assert_eq!(g.get_size(), 3);
    g.update_edge(key("u"), key("v"), 11, None).unwrap();
    assert_eq!(g.get_edge_weight(key("u"), key("v"), None, None), 11);
    assert_eq!(g.get_edge_weight(key("u"), key("w"), None, None), 1);
    assert_eq!(g.get_edge_weight(key("v"), key("w"), None, None), 35);
    let u_before = degree(&g, "u");
    let w_before = degree(&g, "w");
    g.remove_edge(key("u"), key("w"), None, Some(true)).unwrap();
    assert_eq!(g.get_size(), 2);
    assert_eq!(degree(&g, "u"), u_before - 2);
    assert_eq!(degree(&g, "w"), w_before - 2);
    assert_eq!(degree(&g, "u"), 22);
    assert_eq!(degree(&g, "v"), 92);
    assert_eq!(degree(&g, "w"), 70);
}

#[test]
fn negative_weights_are_taken_as_they_are() {
    let mut g = Graph::new();
    g.add_node(key("u")).unwrap();
    g.add_node(key("v")).unwrap();
    g.add_edge(key("u"), key("v"), i64::MIN).unwrap();
    g.add_edge(key("u"), key("v"), i64::MAX).unwrap();
    assert_eq!(g.get_edge_weight(key("u"), key("v"), None, None), -1);
    assert_eq!(degree(&g, "u"), -2);
    assert_eq!(g.get_cumulative_edge_weights(), vec![2 * (i64::MIN as i128), -2]);
}

#[test]
fn positions_are_kept_with_the_node() {
    let mut g = triangle();
    let p = GeoPosition { latitude: 473_000_000, longitude: 85_000_000, altitude: 400 };
    assert_eq!(g.set_node_position(key("u"), Some(p)), Ok(()));
    assert_eq!(g.set_node_position(key("x"), Some(p)), Err(GraphError::UnknownNode));
    let u = g.get_node_idx(key("u")).unwrap();
    assert_eq!(g.get_node(u).unwrap().position, Some(p));
    assert_eq!(g.get_node(u).unwrap().weighted_degree, 4);
    g.add_edge(key("u"), key("v"), 1).unwrap();
    assert_eq!(g.get_node(u).unwrap().position, Some(p));
    assert_eq!(g.set_node_position(key("u"), None), Ok(()));
    assert_eq!(g.get_node(u).unwrap().position, None);
    assert!(p.known());
    assert!(!GeoPosition { latitude: 0, longitude: 5, altitude: 1 }.known());
    assert!(!GeoPosition { latitude: 5, longitude: 0, altitude: 1 }.known());
}

#[test]
fn merging_a_link_makes_nodes_and_sets_the_weight() {
    let mut g = Graph::new();
    let p = GeoPosition { latitude: 1, longitude: 2, altitude: 3 };
    let q = GeoPosition { latitude: 4, longitude: 5, altitude: 6 };
    let link = NeighborLink {
        node: key("a"),
        neighbor: key("b"),
        weight: 12,
        node_position: Some(p),
        neighbor_position: None,
    };
    assert_eq!(g.merge_link(&link), Ok(()));
    assert_eq!(g.get_order(), 2);
    assert_eq!(g.get_size(), 1);
    assert_eq!(g.get_edge_weight(key("a"), key("b"), None, None), 12);
    let a = g.get_node_idx(key("a")).unwrap();
    let b = g.get_node_idx(key("b")).unwrap();
    assert_eq!(g.get_node(a).unwrap().position, Some(p));
    assert_eq!(g.get_node(b).unwrap().position, None);
    assert_eq!(degree(&g, "a"), 24);

    let again = NeighborLink {
        node: key("b"),
        neighbor: key("a"),
        weight: 20,
        node_position: Some(q),
        neighbor_position: None,
    };
    assert_eq!(g.merge_link(&again), Ok(()));
    assert_eq!(g.get_order(), 2);
    assert_eq!(g.get_size(), 1);
    assert_eq!(g.get_edge_weight(key("a"), key("b"), None, None), 20);
    assert_eq!(g.get_node(a).unwrap().position, Some(p));
    assert_eq!(g.get_node(b).unwrap().position, Some(q));
    assert_eq!(degree(&g, "a"), 40);
    assert_eq!(degree(&g, "b"), 40);

    let third = NeighborLink {
        node: key("a"),
        neighbor: key("c"),
        weight: 1,
        node_position: None,
        neighbor_position: Some(q),
    };
    assert_eq!(g.merge_link(&third), Ok(()));
    assert_eq!(g.get_order(), 3);
    assert_eq!(g.get_size(), 2);
    assert_eq!(degree(&g, "a"), 42);
    let c = g.get_node_idx(key("c")).unwrap();
    assert_eq!(g.get_node(c).unwrap().position, Some(q));
}

#[test]
fn merging_a_link_to_itself() {
    let mut g = Graph::new();
    let link = NeighborLink {
        node: key("a"),
        neighbor: key("a"),
        weight: 3,
        node_position: None,
        neighbor_position: None,
    };
    assert_eq!(g.merge_link(&link), Ok(()));
    assert_eq!(g.merge_link(&link), Ok(()));
    assert_eq!(g.get_order(), 1);
    assert_eq!(g.get_size(), 1);
    assert_eq!(degree(&g, "a"), 6);
}
