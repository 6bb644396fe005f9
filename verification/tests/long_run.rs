use mesh_topology::graph::Graph;
use mesh_topology::types::GraphError;

/// A plain record of what the graph should hold: the keys, and for every
/// unordered pair of keys the weights of its edges by ordinal.
struct Record {
    keys: Vec<String>,
    pairs: Vec<(String, String, Vec<i64>)>,
}

impl Record {
    fn new() -> Record {
        Record { keys: Vec::new(), pairs: Vec::new() }
    }

    fn has(&self, k: &str) -> bool {
        self.keys.iter().any(|x| x == k)
    }

    fn slot(&self, a: &str, b: &str) -> Option<usize> {
        self.pairs.iter().position(|(x, y, _)| (x == a && y == b) || (x == b && y == a))
    }

    fn weights(&self, a: &str, b: &str) -> Vec<i64> {
        match self.slot(a, b) {
            Some(i) => self.pairs[i].2.clone(),
            None => Vec::new(),
        }
    }

    fn add_edge(&mut self, a: &str, b: &str, w: i64) {
        match self.slot(a, b) {
            Some(i) => self.pairs[i].2.push(w),
            None => self.pairs.push((a.to_string(), b.to_string(), vec![w])),
        }
    }

    fn degree(&self, k: &str) -> usize {
        self.pairs.iter().filter(|(x, y, _)| x == k || y == k).map(|(_, _, l)| l.len()).sum()
    }

    fn weighted_degree(&self, k: &str) -> i128 {
        self.pairs
            .iter()
            .filter(|(x, y, _)| x == k || y == k)
            .map(|(_, _, l)| l.iter().map(|w| 2 * (*w as i128)).sum::<i128>())
            .sum()
    }

    fn size(&self) -> usize {
        self.pairs.iter().map(|(_, _, l)| l.len()).sum()
    }

    fn neighbors(&self, k: &str) -> Vec<String> {
        let mut out = Vec::new();
        for (x, y, l) in &self.pairs {
            if x == k || y == k {
                let other = if x == k { y } else { x };
                for _ in l {
                    out.push(other.clone());
                }
            }
        }
        out.sort();
        out
    }
}

fn next(seed: &mut u64) -> u64 {
    *seed = seed.wrapping_mul(6364136223846793005).wrapping_add(1442695040888963407);
    *seed >> 33
}

fn compare(g: &Graph, r: &Record, names: &[&str]) {
    assert_eq!(g.get_order(), r.keys.len());
    assert_eq!(g.get_size(), r.size());
    let mut listed: Vec<String> = g.get_nodes().into_iter().map(|n| n.name).collect();
    listed.sort();
    let mut keys = r.keys.clone();
    keys.sort();
    assert_eq!(listed, keys);
    for a in names {
        let known = r.has(a);
        assert_eq!(g.get_node_idx(a.to_string()).is_some(), known);
        assert_eq!(g.degree_of(a.to_string()), if known { r.degree(a) } else { 0 });
        let mut around: Vec<String> =
            g.get_neighbors(a.to_string()).into_iter().map(|n| n.name).collect();
        around.sort();
        assert_eq!(around, if known { r.neighbors(a) } else { Vec::new() });
        assert_eq!(g.get_neighbors_idx(a.to_string()).len(), around.len());
        if known {
            let h = g.get_node_idx(a.to_string()).unwrap();
            let node = g.get_node(h).unwrap();
            assert_eq!(node.name, *a);
            assert_eq!(node.weighted_degree, r.weighted_degree(a));
        }
        for b in names {
            let ws = if known && r.has(b) { r.weights(a, b) } else { Vec::new() };
            let sum: i128 = ws.iter().map(|w| *w as i128).sum();
            assert_eq!(g.get_edge_weight(a.to_string(), b.to_string(), None, None), sum);
            for i in 0..ws.len() + 1 {
                let want = if i < ws.len() { ws[i] as i128 } else { 0 };
                assert_eq!(
                    g.get_edge_weight(a.to_string(), b.to_string(), Some(i), Some(true)),
                    want
                );
            }
        }
    }
    let edges = g.get_edges();
    let totals = g.get_cumulative_edge_weights();
    assert_eq!(edges.len(), totals.len());
    let mut running: i128 = 0;
    let mut seen: Vec<(String, String, i64)> = Vec::new();
    for (e, t) in edges.iter().zip(totals.iter()) {
        running += 2 * (e.weight as i128);
        assert_eq!(*t, running);
        let u = g.get_node(e.u).unwrap().name;
        let v = g.get_node(e.v).unwrap().name;
        seen.push(if u <= v { (u, v, e.weight) } else { (v, u, e.weight) });
    }
    seen.sort();
    let mut want: Vec<(String, String, i64)> = Vec::new();
    for (x, y, l) in &r.pairs {
        for w in l {
            want.push(if x <= y {
                (x.clone(), y.clone(), *w)
            } else {
                (y.clone(), x.clone(), *w)
            });
        }
    }
    want.sort();
    assert_eq!(seen, want);
}

fn run(mut seed: u64, steps: usize) {
    let names = ["a", "b", "c", "d", "e"];
    let mut g = Graph::new();
    let mut r = Record::new();
    for step in 0..steps {
        let a = names[(next(&mut seed) % 5) as usize];
        let b = names[(next(&mut seed) % 5) as usize];
        let w = (next(&mut seed) % 41) as i64 - 20;
        let i = (next(&mut seed) % 4) as usize;
        match next(&mut seed) % 8 {
            0 => {
                let got = g.add_node(a.to_string());
                if r.has(a) {
                    assert_eq!(got, Err(GraphError::DuplicateKey));
                } else {
                    assert!(got.is_ok());
                    r.keys.push(a.to_string());
                }
            }
            1 | 2 => {
                let got = g.add_edge(a.to_string(), b.to_string(), w);
                if r.has(a) && r.has(b) {
                    assert_eq!(got, Ok(()));
                    r.add_edge(a, b, w);
                } else {
                    assert_eq!(got, Err(GraphError::UnknownNode));
                }
            }
            3 => {
                let ordinal = if i == 3 { None } else { Some(i) };
                let at = ordinal.unwrap_or(0);
                let got = g.update_edge(a.to_string(), b.to_string(), w, ordinal);
                if !(r.has(a) && r.has(b)) {
                    assert_eq!(got, Err(GraphError::UnknownNode));
                } else {
                    match r.slot(a, b) {
                        None => {
                            assert_eq!(got, Ok(()));
                            r.add_edge(a, b, w);
                        }
                        Some(s) => {
                            if at < r.pairs[s].2.len() {
                                assert_eq!(got, Ok(()));
                                r.pairs[s].2[at] = w;
                            } else {
                                assert_eq!(got, Err(GraphError::UnknownEdge));
                            }
                        }
                    }
                }
            }
            4 | 5 => {
                let all = next(&mut seed) % 3 == 0;
                let ordinal = if i == 3 { None } else { Some(i) };
                let at = ordinal.unwrap_or(0);
                let got = g.remove_edge(a.to_string(), b.to_string(), ordinal, Some(all));
                if !(r.has(a) && r.has(b)) {
                    assert_eq!(got, Err(GraphError::UnknownNode));
                } else {
                    match r.slot(a, b) {
                        None => assert_eq!(got, Err(GraphError::UnknownEdge)),
                        Some(s) => {
                            if all {
                                assert_eq!(got, Ok(()));
                                r.pairs.remove(s);
                            } else if at < r.pairs[s].2.len() {
                                assert_eq!(got, Ok(()));
                                r.pairs[s].2.swap_remove(at);
                                if r.pairs[s].2.is_empty() {
                                    r.pairs.remove(s);
                                }
                            } else {
                                assert_eq!(got, Err(GraphError::UnknownEdge));
                            }
                        }
                    }
                }
            }
            6 => {
                if let Some(h) = g.get_node_idx(a.to_string()) {
                    assert!(r.has(a));
                    assert_eq!(g.remove_node(h), Ok(()));
                    assert_eq!(g.remove_node(h), Err(GraphError::UnknownNode));
                    r.keys.retain(|k| k != a);
                    r.pairs.retain(|(x, y, _)| x != a && y != a);
                } else {
                    assert!(!r.has(a));
                }
            }
            _ => {
                let copy = g.clone();
                compare(&copy, &r, &names);
            }
        }
        if step % 7 == 0 {
            compare(&g, &r, &names);
        }
    }
    compare(&g, &r, &names);
}

#[test]
fn long_run_agrees_with_a_plain_record() {
    run(1, 3000);
}

#[test]
fn long_run_agrees_with_a_plain_record_again() {
    run(0x9e3779b97f4a7c15, 3000);
}
