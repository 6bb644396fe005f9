//! Every mutation of the topology keeps its invariant.

use crate::model::{swap_removed, total_weight, weighted_degree_of, GraphView};
use crate::store::{handle_space, links_between};
use crate::sums::{
    differ_at, lemma_links_between_change, lemma_links_between_none, lemma_weight_at_change,
    lemma_weight_at_untouched,
};
use crate::types::{Edge, GeoPosition};
use vstd::prelude::*;

verus! {

/// The empty topology is valid.
pub proof fn lemma_empty_valid()
    ensures
        GraphView::empty().valid(),
{
}

/// A new node under a free handle and a free key keeps the topology valid.
pub proof fn lemma_with_node_valid(g: GraphView, h: u32, name: Seq<char>)
    requires
        g.valid(),
        !g.nodes.contains_key(h),
        !g.index.contains_key(name),
    ensures
        g.with_node(h, name).valid(),
{
    let r = g.with_node(h, name);
    assert(r.index_agrees()) by {
        assert forall|nm: Seq<char>| #[trigger] r.index.contains_key(nm) implies r.nodes.contains_key(
            r.index[nm],
        ) && r.nodes[r.index[nm]].name == nm by {
            if nm != name {
                assert(g.index.contains_key(nm));
            }
        }
        assert forall|x: u32| #[trigger] r.nodes.contains_key(x) implies r.index.contains_key(
            r.nodes[x].name,
        ) && r.index[r.nodes[x].name] == x by {
            if x != h {
                assert(g.nodes.contains_key(x));
            }
        }
    }
    assert(r.pairs_symmetric());
    assert(r.pairs_sound());
    assert(r.edges_indexed()) by {
        assert forall|e: u32| #[trigger] r.edges.contains_key(e) implies r.nodes.contains_key(
            r.edges[e].u,
        ) && r.nodes.contains_key(r.edges[e].v) && r.list(r.edges[e].u, r.edges[e].v).contains(
            e,
        ) by {
            assert(g.edges.contains_key(e));
            assert(r.list(r.edges[e].u, r.edges[e].v) == g.list(g.edges[e].u, g.edges[e].v));
        }
    }
    assert(r.degrees_agree()) by {
        assert forall|x: u32| #[trigger] r.nodes.contains_key(x) implies r.nodes[x].weighted_degree
            == weighted_degree_of(r.edges, x) by {
            if x == h {
                assert forall|e: u32| #[trigger] g.edges.contains_key(e) implies !g.edges[e].touches(
                    h,
                ) by {}
                lemma_weight_at_untouched(g.edges, h, handle_space());
            } else {
                assert(g.nodes.contains_key(x));
            }
        }
    }
}

/// A new position for a node keeps the topology valid.
pub proof fn lemma_with_position_valid(g: GraphView, h: u32, position: Option<GeoPosition>)
    requires
        g.valid(),
        g.nodes.contains_key(h),
    ensures
        g.with_position(h, position).valid(),
{
    let r = g.with_position(h, position);
    assert(r.index_agrees()) by {
        assert forall|nm: Seq<char>| #[trigger] r.index.contains_key(nm) implies r.nodes.contains_key(
            r.index[nm],
        ) && r.nodes[r.index[nm]].name == nm by {
            assert(g.index.contains_key(nm));
        }
        assert forall|x: u32| #[trigger] r.nodes.contains_key(x) implies r.index.contains_key(
            r.nodes[x].name,
        ) && r.index[r.nodes[x].name] == x by {
            assert(g.nodes.contains_key(x));
        }
    }
    assert(r.edges_indexed()) by {
        assert forall|e: u32| #[trigger] r.edges.contains_key(e) implies r.nodes.contains_key(
            r.edges[e].u,
        ) && r.nodes.contains_key(r.edges[e].v) && r.list(r.edges[e].u, r.edges[e].v).contains(
            e,
        ) by {
            assert(g.edges.contains_key(e));
            assert(r.list(r.edges[e].u, r.edges[e].v) == g.list(g.edges[e].u, g.edges[e].v));
        }
    }
    assert(r.degrees_agree()) by {
        assert forall|x: u32| #[trigger] r.nodes.contains_key(x) implies r.nodes[x].weighted_degree
            == weighted_degree_of(r.edges, x) by {
            assert(g.nodes.contains_key(x));
        }
    }
}

/// A new edge under a free handle between two nodes keeps the topology
/// valid.
pub proof fn lemma_with_link_valid(g: GraphView, e: u32, a: u32, b: u32, weight: i64)
    requires
        g.valid(),
        g.nodes.contains_key(a),
        g.nodes.contains_key(b),
        !g.edges.contains_key(e),
    ensures
        g.with_link(e, a, b, weight).valid(),
{
    let r = g.with_link(e, a, b, weight);
    let old_list = g.list(a, b);
    let new_list = old_list.push(e);
    assert(g.list(b, a) == old_list) by {
        if g.parallel.contains_key((a, b)) {
        } else if g.parallel.contains_key((b, a)) {
        }
    }
    assert(!old_list.contains(e)) by {
        if old_list.contains(e) {
            let i = choose|i: int| 0 <= i < old_list.len() && old_list[i] == e;
            assert(g.edges.contains_key(g.parallel[(a, b)][i]));
        }
    }
    assert(new_list.no_duplicates()) by {
        if g.parallel.contains_key((a, b)) {
            assert(old_list.no_duplicates());
        }
        assert forall|i: int, j: int|
            0 <= i < new_list.len() && 0 <= j < new_list.len() && i != j implies new_list[i]
            != new_list[j] by {
            if i < old_list.len() && j < old_list.len() {
            } else if i < old_list.len() {
                assert(old_list.contains(old_list[i]));
            } else if j < old_list.len() {
                assert(old_list.contains(old_list[j]));
            }
        }
    }
    assert(r.index_agrees()) by {
        assert forall|nm: Seq<char>| #[trigger] r.index.contains_key(nm) implies r.nodes.contains_key(
            r.index[nm],
        ) && r.nodes[r.index[nm]].name == nm by {
            assert(g.index.contains_key(nm));
        }
        assert forall|x: u32| #[trigger] r.nodes.contains_key(x) implies r.index.contains_key(
            r.nodes[x].name,
        ) && r.index[r.nodes[x].name] == x by {
            assert(g.nodes.contains_key(x));
        }
    }
    assert(r.pairs_symmetric()) by {
        assert forall|x: u32, y: u32| #[trigger] r.parallel.contains_key((x, y)) implies r.parallel.contains_key(
        (y, x)) && r.parallel[(y, x)] == r.parallel[(x, y)] by {
            if (x, y) == (a, b) || (x, y) == (b, a) {
            } else {
                assert(g.parallel.contains_key((x, y)));
            }
        }
    }
    assert(r.pairs_sound()) by {
        assert forall|x: u32, y: u32| #[trigger] r.parallel.contains_key((x, y)) implies r.parallel[(
            x,
            y,
        )].len() > 0 && r.parallel[(x, y)].no_duplicates() by {
            if (x, y) == (a, b) || (x, y) == (b, a) {
            } else {
                assert(g.parallel.contains_key((x, y)));
            }
        }
        assert forall|x: u32, y: u32, i: int|
            r.parallel.contains_key((x, y)) && 0 <= i < r.parallel[(x, y)].len() implies r.edges.contains_key(
        #[trigger] r.parallel[(x, y)][i]) && r.edges[r.parallel[(x, y)][i]].joins(x, y) by {
            if (x, y) == (a, b) || (x, y) == (b, a) {
                if i < old_list.len() {
                    assert(g.edges.contains_key(g.parallel[(a, b)][i]));
                }
            } else {
                assert(g.parallel.contains_key((x, y)));
                assert(g.edges.contains_key(g.parallel[(x, y)][i]));
            }
        }
    }
    assert(r.edges_indexed()) by {
        assert forall|x: u32| #[trigger] r.edges.contains_key(x) implies r.nodes.contains_key(
            r.edges[x].u,
        ) && r.nodes.contains_key(r.edges[x].v) && r.list(r.edges[x].u, r.edges[x].v).contains(
            x,
        ) by {
            if x == e {
                assert(new_list[old_list.len() as int] == e);
            } else {
                assert(g.edges.contains_key(x));
                let p = (g.edges[x].u, g.edges[x].v);
                let l = g.list(p.0, p.1);
                let i = choose|i: int| 0 <= i < l.len() && l[i] == x;
                if p == (a, b) || p == (b, a) {
                    assert(new_list[i] == x);
                } else {
                    assert(r.list(p.0, p.1) == l);
                }
            }
        }
    }
    assert(r.degrees_agree()) by {
        assert(differ_at(g.edges, r.edges, e));
        assert forall|x: u32| #[trigger] r.nodes.contains_key(x) implies r.nodes[x].weighted_degree
            == weighted_degree_of(r.edges, x) by {
            assert(g.nodes.contains_key(x));
            lemma_weight_at_change(g.edges, r.edges, x, e, handle_space());
        }
    }
}

/// A new weight for an edge keeps the topology valid.
pub proof fn lemma_reweighted_valid(g: GraphView, e: u32, weight: i64)
    requires
        g.valid(),
        g.edges.contains_key(e),
    ensures
        g.reweighted(e, weight).valid(),
{
    let r = g.reweighted(e, weight);
    assert(r.index_agrees()) by {
        assert forall|nm: Seq<char>| #[trigger] r.index.contains_key(nm) implies r.nodes.contains_key(
            r.index[nm],
        ) && r.nodes[r.index[nm]].name == nm by {
            assert(g.index.contains_key(nm));
        }
        assert forall|x: u32| #[trigger] r.nodes.contains_key(x) implies r.index.contains_key(
            r.nodes[x].name,
        ) && r.index[r.nodes[x].name] == x by {
            assert(g.nodes.contains_key(x));
        }
    }
    assert(r.pairs_sound()) by {
        assert forall|x: u32, y: u32, i: int|
            r.parallel.contains_key((x, y)) && 0 <= i < r.parallel[(x, y)].len() implies r.edges.contains_key(
        #[trigger] r.parallel[(x, y)][i]) && r.edges[r.parallel[(x, y)][i]].joins(x, y) by {
            assert(g.edges.contains_key(g.parallel[(x, y)][i]));
        }
    }
    assert(r.edges_indexed()) by {
        assert forall|x: u32| #[trigger] r.edges.contains_key(x) implies r.nodes.contains_key(
            r.edges[x].u,
        ) && r.nodes.contains_key(r.edges[x].v) && r.list(r.edges[x].u, r.edges[x].v).contains(
            x,
        ) by {
            assert(g.edges.contains_key(x));
            assert(r.list(r.edges[x].u, r.edges[x].v) == g.list(g.edges[x].u, g.edges[x].v));
        }
    }
    assert(r.degrees_agree()) by {
        assert(differ_at(g.edges, r.edges, e));
        assert forall|x: u32| #[trigger] r.nodes.contains_key(x) implies r.nodes[x].weighted_degree
            == weighted_degree_of(r.edges, x) by {
            assert(g.nodes.contains_key(x));
            lemma_weight_at_change(g.edges, r.edges, x, e, handle_space());
        }
    }
}

/// What a swap-style removal leaves of a list without repeats: every entry
/// but the one taken out, each once.
pub proof fn lemma_swap_removed(list: Seq<u32>, i: int)
    requires
        list.no_duplicates(),
        0 <= i < list.len(),
    ensures
        swap_removed(list, i).len() == list.len() - 1,
        swap_removed(list, i).no_duplicates(),
        !swap_removed(list, i).contains(list[i]),
        forall|x: u32| list.contains(x) && x != list[i] ==> swap_removed(list, i).contains(x),
        forall|j: int|
            0 <= j < list.len() - 1 ==> list.contains(#[trigger] swap_removed(list, i)[j]),
{
    let nl = swap_removed(list, i);
    let last = list.len() - 1;
    assert forall|j: int| 0 <= j < nl.len() implies nl[j] == (if j == i {
        list[last]
    } else {
        list[j]
    }) by {}
    assert forall|x: u32| list.contains(x) && x != list[i] implies nl.contains(x) by {
        let j = choose|j: int| 0 <= j < list.len() && list[j] == x;
        if j == last {
            assert(nl[i] == x);
        } else {
            assert(nl[j] == x);
        }
    }
    if nl.contains(list[i]) {
        let j = choose|j: int| 0 <= j < nl.len() && nl[j] == list[i];
        assert(false);
    }
    assert forall|j: int| 0 <= j < list.len() - 1 implies list.contains(#[trigger] nl[j]) by {
        if j == i {
            assert(list[last] == nl[j]);
        } else {
            assert(list[j] == nl[j]);
        }
    }
}

/// Taking one edge out keeps the topology valid.
pub proof fn lemma_without_link_valid(g: GraphView, a: u32, b: u32, i: int)
    requires
        g.valid(),
        0 <= i < g.list(a, b).len(),
    ensures
        g.without_link(a, b, i).valid(),
{
    let r = g.without_link(a, b, i);
    let list = g.list(a, b);
    let e = list[i];
    let nl = swap_removed(list, i);
    assert(g.parallel.contains_key((a, b)));
    assert(g.parallel.contains_key((b, a)) && g.parallel[(b, a)] == list);
    assert(g.edges.contains_key(g.parallel[(a, b)][i]));
    lemma_swap_removed(list, i);
    assert(r.index_agrees()) by {
        assert forall|nm: Seq<char>| #[trigger] r.index.contains_key(nm) implies r.nodes.contains_key(
            r.index[nm],
        ) && r.nodes[r.index[nm]].name == nm by {
            assert(g.index.contains_key(nm));
        }
        assert forall|x: u32| #[trigger] r.nodes.contains_key(x) implies r.index.contains_key(
            r.nodes[x].name,
        ) && r.index[r.nodes[x].name] == x by {
            assert(g.nodes.contains_key(x));
        }
    }
    assert(r.pairs_symmetric()) by {
        assert forall|x: u32, y: u32| #[trigger] r.parallel.contains_key((x, y)) implies r.parallel.contains_key(
        (y, x)) && r.parallel[(y, x)] == r.parallel[(x, y)] by {
            if (x, y) == (a, b) || (x, y) == (b, a) {
            } else {
                assert(g.parallel.contains_key((x, y)));
            }
        }
    }
    assert(r.pairs_sound()) by {
        assert forall|x: u32, y: u32| #[trigger] r.parallel.contains_key((x, y)) implies r.parallel[(
            x,
            y,
        )].len() > 0 && r.parallel[(x, y)].no_duplicates() by {
            if (x, y) == (a, b) || (x, y) == (b, a) {
            } else {
                assert(g.parallel.contains_key((x, y)));
            }
        }
        assert forall|x: u32, y: u32, j: int|
            r.parallel.contains_key((x, y)) && 0 <= j < r.parallel[(x, y)].len() implies r.edges.contains_key(
        #[trigger] r.parallel[(x, y)][j]) && r.edges[r.parallel[(x, y)][j]].joins(x, y) by {
            let z = r.parallel[(x, y)][j];
            if (x, y) == (a, b) || (x, y) == (b, a) {
                assert(list.contains(nl[j]));
                let jj = choose|jj: int| 0 <= jj < list.len() && list[jj] == z;
                assert(g.edges.contains_key(g.parallel[(a, b)][jj]));
                assert(nl.contains(z));
            } else {
                assert(g.parallel.contains_key((x, y)));
                assert(g.edges.contains_key(g.parallel[(x, y)][j]));
                if z == e {
                    assert(g.edges[e].joins(a, b) && g.edges[e].joins(x, y));
                }
            }
        }
    }
    assert(r.edges_indexed()) by {
        assert forall|x: u32| #[trigger] r.edges.contains_key(x) implies r.nodes.contains_key(
            r.edges[x].u,
        ) && r.nodes.contains_key(r.edges[x].v) && r.list(r.edges[x].u, r.edges[x].v).contains(
            x,
        ) by {
            assert(g.edges.contains_key(x));
            let p = (g.edges[x].u, g.edges[x].v);
            let l = g.list(p.0, p.1);
            assert(l.contains(x));
            if p == (a, b) || p == (b, a) {
                assert(l == list);
                assert(nl.contains(x));
                assert(nl.len() > 0);
                assert(r.list(p.0, p.1) == nl);
            } else {
                assert(r.list(p.0, p.1) == l);
            }
        }
    }
    assert(r.degrees_agree()) by {
        assert(differ_at(g.edges, r.edges, e));
        assert forall|x: u32| #[trigger] r.nodes.contains_key(x) implies r.nodes[x].weighted_degree
            == weighted_degree_of(r.edges, x) by {
            assert(g.nodes.contains_key(x));
            lemma_weight_at_change(g.edges, r.edges, x, e, handle_space());
        }
    }
}

/// Taking a list of parallel edges out of the link table takes twice their
/// total weight from each of the two nodes, and nothing from any other.
pub proof fn lemma_weight_at_remove_list(
    edges: Map<u32, Edge>,
    list: Seq<u32>,
    h: u32,
    a: u32,
    b: u32,
)
    requires
        list.no_duplicates(),
        forall|i: int|
            0 <= i < list.len() ==> edges.contains_key(#[trigger] list[i]) && edges[list[i]].joins(
                a,
                b,
            ),
    ensures
        weighted_degree_of(edges.remove_keys(list.to_set()), h) == weighted_degree_of(edges, h) - (
        if h == a || h == b {
            2 * total_weight(edges, list)
        } else {
            0
        }),
    decreases list.len(),
{
    if list.len() == 0 {
        assert(edges.remove_keys(list.to_set()) =~= edges);
    } else {
        let pre = list.drop_last();
        let last = list.last();
        lemma_weight_at_remove_list(edges, pre, h, a, b);
        let m1 = edges.remove_keys(pre.to_set());
        let m2 = edges.remove_keys(list.to_set());
        assert(!pre.contains(last)) by {
            if pre.contains(last) {
                let j = choose|j: int| 0 <= j < pre.len() && pre[j] == last;
                assert(list[j] == list[list.len() - 1]);
            }
        }
        assert forall|x: u32| x != last implies (#[trigger] m1.contains_key(x) == m2.contains_key(
            x,
        )) && (m1.contains_key(x) ==> m1[x] == m2[x]) by {
            if pre.contains(x) {
                let j = choose|j: int| 0 <= j < pre.len() && pre[j] == x;
                assert(list[j] == x);
            }
            if list.contains(x) {
                let j = choose|j: int| 0 <= j < list.len() && list[j] == x;
                assert(pre[j] == x);
            }
        }
        assert(list.contains(last)) by {
            assert(list[list.len() - 1] == last);
        }
        assert(m1.contains_key(last) && m1[last] == edges[last]);
        assert(!m2.contains_key(last));
        lemma_weight_at_change(m1, m2, h, last, handle_space());
    }
}

/// Taking every edge between two nodes out keeps the topology valid.
pub proof fn lemma_without_links_valid(g: GraphView, a: u32, b: u32)
    requires
        g.valid(),
        g.parallel.contains_key((a, b)),
    ensures
        g.without_links(a, b).valid(),
{
    let r = g.without_links(a, b);
    let list = g.list(a, b);
    assert(g.parallel.contains_key((b, a)) && g.parallel[(b, a)] == list);
    assert forall|i: int| 0 <= i < list.len() implies g.edges.contains_key(#[trigger] list[i])
        && g.edges[list[i]].joins(a, b) by {
        assert(g.edges.contains_key(g.parallel[(a, b)][i]));
    }
    assert(r.index_agrees()) by {
        assert forall|nm: Seq<char>| #[trigger] r.index.contains_key(nm) implies r.nodes.contains_key(
            r.index[nm],
        ) && r.nodes[r.index[nm]].name == nm by {
            assert(g.index.contains_key(nm));
        }
        assert forall|x: u32| #[trigger] r.nodes.contains_key(x) implies r.index.contains_key(
            r.nodes[x].name,
        ) && r.index[r.nodes[x].name] == x by {
            assert(g.nodes.contains_key(x));
        }
    }
    assert(r.pairs_symmetric()) by {
        assert forall|x: u32, y: u32| #[trigger] r.parallel.contains_key((x, y)) implies r.parallel.contains_key(
        (y, x)) && r.parallel[(y, x)] == r.parallel[(x, y)] by {
            assert(g.parallel.contains_key((x, y)));
        }
    }
    assert(r.pairs_sound()) by {
        assert forall|x: u32, y: u32| #[trigger] r.parallel.contains_key((x, y)) implies r.parallel[(
            x,
            y,
        )].len() > 0 && r.parallel[(x, y)].no_duplicates() by {
            assert(g.parallel.contains_key((x, y)));
        }
        assert forall|x: u32, y: u32, j: int|
            r.parallel.contains_key((x, y)) && 0 <= j < r.parallel[(x, y)].len() implies r.edges.contains_key(
        #[trigger] r.parallel[(x, y)][j]) && r.edges[r.parallel[(x, y)][j]].joins(x, y) by {
            let z = r.parallel[(x, y)][j];
            assert(g.parallel.contains_key((x, y)));
            assert(g.edges.contains_key(g.parallel[(x, y)][j]));
            if list.contains(z) {
                let jj = choose|jj: int| 0 <= jj < list.len() && list[jj] == z;
                assert(g.edges[list[jj]].joins(a, b));
            }
        }
    }
    assert(r.edges_indexed()) by {
        assert forall|x: u32| #[trigger] r.edges.contains_key(x) implies r.nodes.contains_key(
            r.edges[x].u,
        ) && r.nodes.contains_key(r.edges[x].v) && r.list(r.edges[x].u, r.edges[x].v).contains(
            x,
        ) by {
            assert(g.edges.contains_key(x));
            assert(!list.contains(x));
            let p = (g.edges[x].u, g.edges[x].v);
            assert(g.list(p.0, p.1).contains(x));
            assert(r.list(p.0, p.1) == g.list(p.0, p.1));
        }
    }
    assert(r.degrees_agree()) by {
        assert forall|x: u32| #[trigger] r.nodes.contains_key(x) implies r.nodes[x].weighted_degree
            == weighted_degree_of(r.edges, x) by {
            assert(g.nodes.contains_key(x));
            lemma_weight_at_remove_list(g.edges, list, x, a, b);
        }
    }
}

/// Taking a node out, with every edge at it, keeps the topology valid.
pub proof fn lemma_without_node_valid(g: GraphView, h: u32)
    requires
        g.valid(),
        g.nodes.contains_key(h),
    ensures
        g.without_node(h).valid(),
{
    let r = g.without_node(h);
    assert(r.index_agrees()) by {
        assert forall|nm: Seq<char>| #[trigger] r.index.contains_key(nm) implies r.nodes.contains_key(
            r.index[nm],
        ) && r.nodes[r.index[nm]].name == nm by {
            assert(g.index.contains_key(nm));
        }
        assert forall|x: u32| #[trigger] r.nodes.contains_key(x) implies r.index.contains_key(
            r.nodes[x].name,
        ) && r.index[r.nodes[x].name] == x by {
            assert(g.nodes.contains_key(x));
        }
    }
    assert(r.pairs_symmetric()) by {
        assert forall|x: u32, y: u32| #[trigger] r.parallel.contains_key((x, y)) implies r.parallel.contains_key(
        (y, x)) && r.parallel[(y, x)] == r.parallel[(x, y)] by {
            assert(g.parallel.contains_key((x, y)));
        }
    }
    assert(r.pairs_sound()) by {
        assert forall|x: u32, y: u32| #[trigger] r.parallel.contains_key((x, y)) implies r.parallel[(
            x,
            y,
        )].len() > 0 && r.parallel[(x, y)].no_duplicates() by {
            assert(g.parallel.contains_key((x, y)));
        }
        assert forall|x: u32, y: u32, j: int|
            r.parallel.contains_key((x, y)) && 0 <= j < r.parallel[(x, y)].len() implies r.edges.contains_key(
        #[trigger] r.parallel[(x, y)][j]) && r.edges[r.parallel[(x, y)][j]].joins(x, y) by {
            assert(g.parallel.contains_key((x, y)));
            assert(g.edges.contains_key(g.parallel[(x, y)][j]));
        }
    }
    assert(r.edges_indexed()) by {
        assert forall|x: u32| #[trigger] r.edges.contains_key(x) implies r.nodes.contains_key(
            r.edges[x].u,
        ) && r.nodes.contains_key(r.edges[x].v) && r.list(r.edges[x].u, r.edges[x].v).contains(
            x,
        ) by {
            assert(g.edges.contains_key(x));
            let p = (g.edges[x].u, g.edges[x].v);
            assert(g.list(p.0, p.1).contains(x));
            assert(g.parallel.contains_key(p));
            assert(r.parallel.contains_key(p));
            assert(r.list(p.0, p.1) == g.list(p.0, p.1));
        }
    }
}

/// In a valid topology some edge runs between two nodes exactly when the
/// pair has a list.
pub proof fn lemma_joined_iff_listed(g: GraphView, a: u32, b: u32)
    requires
        g.valid(),
    ensures
        (exists|e: u32| #[trigger] g.edges.contains_key(e) && g.edges[e].joins(a, b))
            <==> g.parallel.contains_key((a, b)),
        g.list(b, a) == g.list(a, b),
{
    if g.parallel.contains_key((a, b)) {
        let e = g.parallel[(a, b)][0];
        assert(g.edges.contains_key(e) && g.edges[e].joins(a, b));
    }
    if exists|e: u32| #[trigger] g.edges.contains_key(e) && g.edges[e].joins(a, b) {
        let e = choose|e: u32| #[trigger] g.edges.contains_key(e) && g.edges[e].joins(a, b);
        assert(g.list(g.edges[e].u, g.edges[e].v).contains(e));
        if g.edges[e].u == a && g.edges[e].v == b {
            assert(g.parallel.contains_key((a, b)));
        } else {
            assert(g.parallel.contains_key((b, a)));
        }
    }
    if g.parallel.contains_key((a, b)) {
    } else if g.parallel.contains_key((b, a)) {
    }
}

/// Taking a list of parallel edges out of the link table takes as many
/// from the count of the edges between the two nodes.
pub proof fn lemma_links_between_remove_list(edges: Map<u32, Edge>, list: Seq<u32>, a: u32, b: u32)
    requires
        list.no_duplicates(),
        forall|i: int|
            0 <= i < list.len() ==> edges.contains_key(#[trigger] list[i]) && edges[list[i]].joins(
                a,
                b,
            ),
    ensures
        links_between(edges.remove_keys(list.to_set()), a, b, handle_space()) == links_between(
            edges,
            a,
            b,
            handle_space(),
        ) - list.len(),
    decreases list.len(),
{
    if list.len() == 0 {
        assert(edges.remove_keys(list.to_set()) =~= edges);
    } else {
        let pre = list.drop_last();
        let last = list.last();
        lemma_links_between_remove_list(edges, pre, a, b);
        let m1 = edges.remove_keys(pre.to_set());
        let m2 = edges.remove_keys(list.to_set());
        assert(!pre.contains(last)) by {
            if pre.contains(last) {
                let j = choose|j: int| 0 <= j < pre.len() && pre[j] == last;
                assert(list[j] == list[list.len() - 1]);
            }
        }
        assert forall|x: u32| x != last implies (#[trigger] m1.contains_key(x) == m2.contains_key(
            x,
        )) && (m1.contains_key(x) ==> m1[x] == m2[x]) by {
            if pre.contains(x) {
                let j = choose|j: int| 0 <= j < pre.len() && pre[j] == x;
                assert(list[j] == x);
            }
            if list.contains(x) {
                let j = choose|j: int| 0 <= j < list.len() && list[j] == x;
                assert(pre[j] == x);
            }
        }
        assert(list.contains(last)) by {
            assert(list[list.len() - 1] == last);
        }
        assert(m1.contains_key(last) && m1[last] == edges[last]);
        assert(!m2.contains_key(last));
        lemma_links_between_change(m1, m2, a, b, last, handle_space());
    }
}

/// In a valid topology the list of a pair names every edge between its
/// two nodes: there are as many such edges as the list is long.
pub proof fn lemma_list_counts_links(g: GraphView, a: u32, b: u32)
    requires
        g.valid(),
    ensures
        links_between(g.edges, a, b, handle_space()) == g.list(a, b).len(),
{
    let list = g.list(a, b);
    lemma_joined_iff_listed(g, a, b);
    if g.parallel.contains_key((a, b)) {
        assert forall|i: int| 0 <= i < list.len() implies g.edges.contains_key(#[trigger] list[i])
            && g.edges[list[i]].joins(a, b) by {
            assert(g.edges.contains_key(g.parallel[(a, b)][i]));
        }
        lemma_links_between_remove_list(g.edges, list, a, b);
        let rest = g.edges.remove_keys(list.to_set());
        assert forall|x: u32| #[trigger] rest.contains_key(x) implies !rest[x].joins(a, b) by {
            if rest[x].joins(a, b) {
                assert(g.edges.contains_key(x));
                assert(g.list(g.edges[x].u, g.edges[x].v).contains(x));
                assert(list.contains(x));
            }
        }
        lemma_links_between_none(rest, a, b, handle_space());
    } else {
        lemma_links_between_none(g.edges, a, b, handle_space());
    }
}

} // verus!
