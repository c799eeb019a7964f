//! Pruning a graph to what lies within a given depth of its roots.

use vstd::prelude::*;
use crate::ir::{CodeGraph, Edge, EdgeV, Node, NodeV, edges_v, nodes_v};
use crate::reach::{
    IdGraph, build_id_graph, explore_within, ids_at, index_of, is_marked, lemma_ireached_iff,
    reach_in, reached_from,
};
use crate::text::{copy_string, same_text};

verus! {

/// Whether no edge leads to `x`.
pub open spec fn no_incoming(edges: Seq<EdgeV>, x: Seq<char>) -> bool {
    forall|i: int| 0 <= i < edges.len() ==> #[trigger] edges[i].to != x
}

/// Whether some node has no incoming edge.
pub open spec fn has_free_node(nodes: Seq<NodeV>, edges: Seq<EdgeV>) -> bool {
    exists|k: int| 0 <= k < nodes.len() && no_incoming(edges, #[trigger] nodes[k].id)
}

/// Whether `x` is a root of the pruning: a node without incoming edges, or, where every
/// node has one, the first node.
pub open spec fn is_root(nodes: Seq<NodeV>, edges: Seq<EdgeV>, x: Seq<char>) -> bool {
    if has_free_node(nodes, edges) {
        (exists|k: int| 0 <= k < nodes.len() && #[trigger] nodes[k].id == x) && no_incoming(edges, x)
    } else {
        nodes.len() > 0 && x == nodes[0].id
    }
}

/// Whether `x` is reached from a root by at most `depth` edges.
pub open spec fn within_depth(nodes: Seq<NodeV>, edges: Seq<EdgeV>, depth: nat, x: Seq<char>) -> bool {
    exists|r: Seq<char>, n: nat| is_root(nodes, edges, r) && n <= depth && #[trigger] reach_in(edges, false, r, x, n)
}

/// The nodes that pruning keeps.
pub open spec fn keep_node(nodes: Seq<NodeV>, edges: Seq<EdgeV>, depth: nat) -> spec_fn(NodeV) -> bool {
    |n: NodeV| within_depth(nodes, edges, depth, n.id)
}

/// The edges that pruning keeps: both ends kept.
pub open spec fn keep_edge(nodes: Seq<NodeV>, edges: Seq<EdgeV>, depth: nat) -> spec_fn(EdgeV) -> bool {
    |e: EdgeV| within_depth(nodes, edges, depth, e.from) && within_depth(nodes, edges, depth, e.to)
}

/// Whether some edge leads to `x`.
fn has_incoming(edges: &Vec<Edge>, x: &String) -> (r: bool)
    ensures
        r == !no_incoming(edges_v(edges@), x@),
{
    let ghost ev = edges_v(edges@);
    let mut i: usize = 0;
    while i < edges.len()
        invariant
            ev == edges_v(edges@),
            i <= edges@.len(),
            forall|i2: int| 0 <= i2 < i ==> #[trigger] ev[i2].to != x@,
        decreases edges@.len() - i,
    {
        assert(ev[i as int] == edges@[i as int]@);
        if same_text(&edges[i].to_id, x) {
            assert(ev[i as int].to == x@);
            return true;
        }
        i = i + 1;
    }
    false
}

/// The ids of the nodes, in order.
pub fn node_ids(nodes: &Vec<Node>) -> (r: Vec<String>)
    ensures
        r@.len() == nodes@.len(),
        forall|k: int| 0 <= k < nodes@.len() ==> r.deep_view()[k] == #[trigger] nodes_v(nodes@)[k].id,
{
    let mut r: Vec<String> = Vec::new();
    let mut k: usize = 0;
    while k < nodes.len()
        invariant
            k <= nodes@.len(),
            r@.len() == k,
            forall|k2: int| 0 <= k2 < k ==> r.deep_view()[k2] == #[trigger] nodes_v(nodes@)[k2].id,
        decreases nodes@.len() - k,
    {
        let ghost r0 = r@;
        r.push(copy_string(&nodes[k].id));
        assert forall|k2: int| 0 <= k2 < k + 1 implies r.deep_view()[k2] == #[trigger] nodes_v(nodes@)[k2].id by {
            if k2 < k {
                assert(r@[k2] == r0[k2]);
            }
        }
        k = k + 1;
    }
    r
}

/// The indices, in the indexed copy, of the roots of the pruning.
fn root_indices(nodes: &Vec<Node>, edges: &Vec<Edge>, g: &IdGraph) -> (roots: Vec<usize>)
    requires
        g.wf(edges_v(edges@), false),
        forall|k: int| 0 <= k < nodes@.len() ==> g.idv().contains(#[trigger] nodes_v(nodes@)[k].id),
    ensures
        forall|t: int| 0 <= t < roots@.len() ==> roots@[t] < g.idv().len(),
        forall|x: Seq<char>| ids_at(g.idv(), roots@).contains(x) <==> is_root(nodes_v(nodes@), edges_v(edges@), x),
{
    let ghost nv = nodes_v(nodes@);
    let ghost ev = edges_v(edges@);
    let ghost ids = g.idv();
    let mut roots: Vec<usize> = Vec::new();
    let ghost mut ks: Seq<int> = Seq::empty();
    let mut k: usize = 0;
    while k < nodes.len()
        invariant
            nv == nodes_v(nodes@),
            ev == edges_v(edges@),
            ids == g.idv(),
            g.wf(ev, false),
            forall|k2: int| 0 <= k2 < nodes@.len() ==> ids.contains(#[trigger] nv[k2].id),
            k <= nodes@.len(),
            ks.len() == roots@.len(),
            forall|t: int| 0 <= t < roots@.len() ==> roots@[t] < ids.len(),
            forall|t: int| 0 <= t < ks.len() ==> 0 <= #[trigger] ks[t] < k && ids[roots@[t] as int] == nv[ks[t]].id
                && no_incoming(ev, nv[ks[t]].id),
            forall|k2: int| 0 <= k2 < k && no_incoming(ev, #[trigger] nv[k2].id) ==>
                ids_at(ids, roots@).contains(nv[k2].id),
        decreases nodes@.len() - k,
    {
        assert(nv[k as int] == nodes@[k as int]@);
        let ghost r0 = roots@;
        let ghost ks0 = ks;
        if !has_incoming(edges, &nodes[k].id) {
            assert(ids.contains(nv[k as int].id));
            match index_of(&g.ids, &nodes[k].id) {
                Some(r) => {
                    roots.push(r);
                    proof {
                        ks = ks.push(k as int);
                    }
                    assert(ids_at(ids, roots@) =~= ids_at(ids, r0).push(nv[k as int].id));
                    assert forall|k2: int| 0 <= k2 < k + 1 && no_incoming(ev, #[trigger] nv[k2].id) implies
                        ids_at(ids, roots@).contains(nv[k2].id) by {
                        if k2 < k {
                            let t = choose|t: int| 0 <= t < ids_at(ids, r0).len() && ids_at(ids, r0)[t] == nv[k2].id;
                            assert(ids_at(ids, roots@)[t] == nv[k2].id);
                        } else {
                            assert(ids_at(ids, roots@)[r0.len() as int] == nv[k2].id);
                        }
                    }
                    assert forall|t: int| 0 <= t < ks.len() implies 0 <= #[trigger] ks[t] < k + 1 && ids[roots@[t] as int] == nv[ks[t]].id
                        && no_incoming(ev, nv[ks[t]].id) by {
                        if t < ks0.len() {
                            assert(ks[t] == ks0[t]);
                            assert(roots@[t] == r0[t]);
                        }
                    }
                },
                None => {
                    assert(false);
                },
            }
        }
        k = k + 1;
    }
    if roots.len() == 0 && nodes.len() > 0 {
        assert(nv[0] == nodes@[0]@);
        assert(ids.contains(nv[0].id));
        match index_of(&g.ids, &nodes[0].id) {
            Some(r) => {
                roots.push(r);
                assert(!has_free_node(nv, ev)) by {
                    if has_free_node(nv, ev) {
                        let k2 = choose|k2: int| 0 <= k2 < nv.len() && no_incoming(ev, #[trigger] nv[k2].id);
                        assert(no_incoming(ev, nv[k2].id));
                    }
                }
                assert forall|x: Seq<char>| ids_at(ids, roots@).contains(x) <==> is_root(nv, ev, x) by {
                    if ids_at(ids, roots@).contains(x) {
                        let t = choose|t: int| 0 <= t < ids_at(ids, roots@).len() && ids_at(ids, roots@)[t] == x;
                        assert(t == 0);
                    }
                    if is_root(nv, ev, x) {
                        assert(ids_at(ids, roots@)[0] == x);
                    }
                }
            },
            None => {
                assert(false);
            },
        }
    } else {
        assert forall|x: Seq<char>| ids_at(ids, roots@).contains(x) <==> is_root(nv, ev, x) by {
            if ids_at(ids, roots@).contains(x) {
                let t = choose|t: int| 0 <= t < ids_at(ids, roots@).len() && ids_at(ids, roots@)[t] == x;
                assert(ids_at(ids, roots@)[t] == ids[roots@[t] as int]);
                assert(0 <= ks[t] < k);
                assert(no_incoming(ev, nv[ks[t]].id));
                assert(has_free_node(nv, ev));
            }
            if is_root(nv, ev, x) {
                if has_free_node(nv, ev) {
                    let k2 = choose|k2: int| 0 <= k2 < nv.len() && #[trigger] nv[k2].id == x;
                    assert(no_incoming(ev, nv[k2].id));
                } else {
                    assert(nv.len() > 0);
                    assert(roots@.len() > 0);
                    let t0: int = 0;
                    assert(0 <= ks[t0] < k);
                    assert(no_incoming(ev, nv[ks[t0]].id));
                    assert(has_free_node(nv, ev));
                }
            }
        }
    }
    roots
}

/// Prunes the graph to the nodes reached from its roots by at most `max_depth` edges, and
/// the edges between them. A depth of zero, or none, leaves the graph as it is. The roots
/// are the nodes without incoming edges, or the first node where every node has one.
pub fn prune_graph(graph: &mut CodeGraph, max_depth: Option<usize>)
    ensures
        (max_depth is None || max_depth->0 == 0) ==> *final(graph) == *old(graph),
        (max_depth is Some && max_depth->0 > 0) ==> {
            let d = max_depth->0 as nat;
            let nv = old(graph).nv();
            let ev = old(graph).ev();
            &&& final(graph).nv() == nv.filter(keep_node(nv, ev, d))
            &&& final(graph).ev() == ev.filter(keep_edge(nv, ev, d))
            &&& final(graph).control_flow == old(graph).control_flow
            &&& final(graph).meta.language == old(graph).meta.language
            &&& final(graph).meta.source_root == old(graph).meta.source_root
            &&& final(graph).meta.generated_at == old(graph).meta.generated_at
            &&& final(graph).meta.node_count == final(graph).nodes@.len()
            &&& final(graph).meta.edge_count == final(graph).edges@.len()
        },
{
    let depth = match max_depth {
        Some(d) => {
            if d > 0 {
                d
            } else {
                return;
            }
        },
        None => {
            return;
        },
    };
    let ghost nv = graph.nv();
    let ghost ev = graph.ev();
    let ghost dd = depth as nat;
    let seeds = node_ids(&graph.nodes);
    let g = build_id_graph(&graph.edges, false, &seeds);
    assert forall|k: int| 0 <= k < graph.nodes@.len() implies g.idv().contains(#[trigger] nodes_v(graph.nodes@)[k].id) by {
        assert(g.idv().contains(seeds.deep_view()[k]));
    }
    let roots = root_indices(&graph.nodes, &graph.edges, &g);
    let visited = explore_within(&g.succ, &roots, depth);
    let ghost ids = g.idv();
    proof {
        lemma_ireached_iff(g, ev, false, roots@, Some(dd));
    }
    assert(g.wf_ids());
    assert forall|x: Seq<char>| (exists|j: int| 0 <= j < visited@.len() && ids[j] == x && visited@[j])
        <==> #[trigger] within_depth(nv, ev, dd, x) by {
        if exists|j: int| 0 <= j < visited@.len() && ids[j] == x && visited@[j] {
            let j = choose|j: int| 0 <= j < visited@.len() && ids[j] == x && visited@[j];
            assert(reached_from(ev, false, ids_at(ids, roots@), ids[j], Some(dd)));
            let (k, n) = choose|k: int, n: nat| 0 <= k < ids_at(ids, roots@).len() && (Some(dd) is None || n <= dd)
                && #[trigger] reach_in(ev, false, ids_at(ids, roots@)[k], x, n);
            assert(ids_at(ids, roots@).contains(ids_at(ids, roots@)[k]));
            assert(is_root(nv, ev, ids_at(ids, roots@)[k]));
        }
        if within_depth(nv, ev, dd, x) {
            let (r, n) = choose|r: Seq<char>, n: nat| is_root(nv, ev, r) && n <= dd && #[trigger] reach_in(ev, false, r, x, n);
            assert(ids_at(ids, roots@).contains(r));
            let k = choose|k: int| 0 <= k < ids_at(ids, roots@).len() && ids_at(ids, roots@)[k] == r;
            assert(reached_from(ev, false, ids_at(ids, roots@), x, Some(dd)));
            assert(ids.contains(x));
            let j = choose|j: int| 0 <= j < ids.len() && ids[j] == x;
            assert(visited@[j]);
        }
    }
    let mut kept_nodes: Vec<Node> = Vec::new();
    let mut i: usize = 0;
    while i < graph.nodes.len()
        invariant
            nv == graph.nv(),
            ev == graph.ev(),
            ids == g.idv(),
            g.wf_ids(),
            visited@.len() == g.ids@.len(),
            forall|x: Seq<char>| (exists|j: int| 0 <= j < visited@.len() && ids[j] == x && visited@[j])
                <==> #[trigger] within_depth(nv, ev, dd, x),
            i <= nv.len(),
            nodes_v(kept_nodes@) == nv.take(i as int).filter(keep_node(nv, ev, dd)),
        decreases nv.len() - i,
    {
        let ghost before = nodes_v(kept_nodes@);
        assert(nv[i as int] == graph.nodes@[i as int]@);
        let keep = is_marked(&g, &visited, &graph.nodes[i].id);
        if keep {
            kept_nodes.push(graph.nodes[i].dup());
        }
        proof {
            assert(nv.take(i + 1).drop_last() =~= nv.take(i as int));
            reveal(Seq::filter);
            assert(nodes_v(kept_nodes@) =~= nv.take(i + 1).filter(keep_node(nv, ev, dd)));
        }
        i = i + 1;
    }
    assert(nv.take(nv.len() as int) =~= nv);
    let mut kept_edges: Vec<Edge> = Vec::new();
    let mut i: usize = 0;
    while i < graph.edges.len()
        invariant
            nv == graph.nv(),
            ev == graph.ev(),
            ids == g.idv(),
            g.wf_ids(),
            visited@.len() == g.ids@.len(),
            forall|x: Seq<char>| (exists|j: int| 0 <= j < visited@.len() && ids[j] == x && visited@[j])
                <==> #[trigger] within_depth(nv, ev, dd, x),
            i <= ev.len(),
            edges_v(kept_edges@) == ev.take(i as int).filter(keep_edge(nv, ev, dd)),
        decreases ev.len() - i,
    {
        assert(ev[i as int] == graph.edges@[i as int]@);
        let a = is_marked(&g, &visited, &graph.edges[i].from_id);
        let b = is_marked(&g, &visited, &graph.edges[i].to_id);
        if a && b {
            kept_edges.push(graph.edges[i].dup());
        }
        proof {
            assert(within_depth(nv, ev, dd, ev[i as int].from) == a);
            assert(within_depth(nv, ev, dd, ev[i as int].to) == b);
            assert(ev.take(i + 1).drop_last() =~= ev.take(i as int));
            reveal(Seq::filter);
            assert(edges_v(kept_edges@) =~= ev.take(i + 1).filter(keep_edge(nv, ev, dd)));
        }
        i = i + 1;
    }
    assert(ev.take(ev.len() as int) =~= ev);
    let node_count = kept_nodes.len();
    let edge_count = kept_edges.len();
    graph.nodes = kept_nodes;
    graph.edges = kept_edges;
    graph.meta.node_count = node_count;
    graph.meta.edge_count = edge_count;
}

proof fn lemma_filter_within<A>(s: Seq<A>, f1: spec_fn(A) -> bool, f2: spec_fn(A) -> bool)
    requires
        forall|x: A| #[trigger] f1(x) ==> f2(x),
    ensures
        s.filter(f2).filter(f1) == s.filter(f1),
    decreases s.len(),
{
    reveal(Seq::filter);
    if s.len() > 0 {
        lemma_filter_within(s.drop_last(), f1, f2);
        let x = s.last();
        if f1(x) {
            assert(f2(x));
            assert(s.filter(f2) == s.drop_last().filter(f2).push(x));
            assert(s.filter(f2).drop_last() =~= s.drop_last().filter(f2));
        } else if f2(x) {
            assert(s.filter(f2).drop_last() =~= s.drop_last().filter(f2));
        }
    }
}

/// Pruning is monotone in the depth: everything kept at a depth is kept at any greater
/// depth, and pruning to the smaller depth gives what pruning to the greater one keeps,
/// filtered again to the smaller depth, so its nodes and edges are a subsequence of those
/// of the deeper pruning.
pub proof fn lemma_prune_monotone(nv: Seq<NodeV>, ev: Seq<EdgeV>, d1: nat, d2: nat)
    requires
        d1 <= d2,
    ensures
        forall|n: NodeV| #[trigger] keep_node(nv, ev, d1)(n) ==> keep_node(nv, ev, d2)(n),
        forall|e: EdgeV| #[trigger] keep_edge(nv, ev, d1)(e) ==> keep_edge(nv, ev, d2)(e),
        nv.filter(keep_node(nv, ev, d2)).filter(keep_node(nv, ev, d1)) == nv.filter(keep_node(nv, ev, d1)),
        ev.filter(keep_edge(nv, ev, d2)).filter(keep_edge(nv, ev, d1)) == ev.filter(keep_edge(nv, ev, d1)),
{
    assert forall|x: Seq<char>| within_depth(nv, ev, d1, x) implies within_depth(nv, ev, d2, x) by {
        let (r, n) = choose|r: Seq<char>, n: nat| is_root(nv, ev, r) && n <= d1 && #[trigger] reach_in(ev, false, r, x, n);
        assert(is_root(nv, ev, r) && n <= d2 && reach_in(ev, false, r, x, n));
    }
    assert forall|n: NodeV| #[trigger] keep_node(nv, ev, d1)(n) implies keep_node(nv, ev, d2)(n) by {
        assert(within_depth(nv, ev, d1, n.id));
    }
    assert forall|e: EdgeV| #[trigger] keep_edge(nv, ev, d1)(e) implies keep_edge(nv, ev, d2)(e) by {
        assert(within_depth(nv, ev, d1, e.from) && within_depth(nv, ev, d1, e.to));
    }
    lemma_filter_within(nv, keep_node(nv, ev, d1), keep_node(nv, ev, d2));
    lemma_filter_within(ev, keep_edge(nv, ev, d1), keep_edge(nv, ev, d2));
}


/// A greater pruning depth keeps everything a smaller one keeps: where `p1` and `p2` are
/// the nodes (or edges) that `prune_graph` keeps of the same graph at depths `d1 <= d2`,
/// each of `p1` is in `p2`, and `p1` is `p2` with the entries beyond depth `d1` left out, in
/// the same order.
pub proof fn lemma_prune_deeper_keeps(nv: Seq<NodeV>, ev: Seq<EdgeV>, d1: nat, d2: nat,
    n1: Seq<NodeV>, n2: Seq<NodeV>, e1: Seq<EdgeV>, e2: Seq<EdgeV>)
    requires
        d1 <= d2,
        n1 == nv.filter(keep_node(nv, ev, d1)),
        n2 == nv.filter(keep_node(nv, ev, d2)),
        e1 == ev.filter(keep_edge(nv, ev, d1)),
        e2 == ev.filter(keep_edge(nv, ev, d2)),
    ensures
        n1 == n2.filter(keep_node(nv, ev, d1)),
        e1 == e2.filter(keep_edge(nv, ev, d1)),
        forall|x: NodeV| n1.contains(x) ==> n2.contains(x),
        forall|x: EdgeV| e1.contains(x) ==> e2.contains(x),
{
    lemma_prune_monotone(nv, ev, d1, d2);
    assert forall|x: NodeV| n1.contains(x) implies n2.contains(x) by {
        n2.lemma_filter_contains_rev(keep_node(nv, ev, d1), x);
    }
    assert forall|x: EdgeV| e1.contains(x) implies e2.contains(x) by {
        e2.lemma_filter_contains_rev(keep_edge(nv, ev, d1), x);
    }
}

} // verus!
