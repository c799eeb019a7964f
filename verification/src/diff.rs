//! The difference between two graphs: the nodes and edges that one has and the other lacks.

use vstd::prelude::*;
use crate::ir::{CodeGraph, Edge, EdgeV, Node, NodeV, edges_v, nodes_v};
use crate::text::same_text;

verus! {

/// Represents the differences between two graphs.
#[derive(Debug, Clone, PartialEq)]
pub struct GraphDiff {
    /// Nodes added in the head graph.
    pub added_nodes: Vec<Node>,
    /// Nodes removed in the head graph.
    pub removed_nodes: Vec<Node>,
    /// Edges added in the head graph.
    pub added_edges: Vec<Edge>,
    /// Edges removed in the head graph.
    pub removed_edges: Vec<Edge>,
}

/// Whether some node has the id.
pub open spec fn has_node_id(nodes: Seq<NodeV>, id: Seq<char>) -> bool {
    exists|k: int| 0 <= k < nodes.len() && #[trigger] nodes[k].id == id
}

/// The nodes whose id the other list lacks.
pub open spec fn missing_nodes(other: Seq<NodeV>) -> spec_fn(NodeV) -> bool {
    |n: NodeV| !has_node_id(other, n.id)
}

/// The edges (by ends and kind) that the other list lacks.
pub open spec fn missing_edges(other: Seq<EdgeV>) -> spec_fn(EdgeV) -> bool {
    |e: EdgeV| !other.contains(e)
}

pub fn contains_node_id(nodes: &Vec<Node>, id: &String) -> (r: bool)
    ensures
        r == has_node_id(nodes_v(nodes@), id@),
{
    let ghost nv = nodes_v(nodes@);
    let mut i: usize = 0;
    while i < nodes.len()
        invariant
            nv == nodes_v(nodes@),
            i <= nodes@.len(),
            forall|k: int| 0 <= k < i ==> #[trigger] nv[k].id != id@,
        decreases nodes@.len() - i,
    {
        assert(nv[i as int] == nodes@[i as int]@);
        if same_text(&nodes[i].id, id) {
            assert(nv[i as int].id == id@);
            return true;
        }
        i = i + 1;
    }
    false
}

fn contains_edge(edges: &Vec<Edge>, e: &Edge) -> (r: bool)
    ensures
        r == edges_v(edges@).contains(e@),
{
    let ghost ev = edges_v(edges@);
    let mut i: usize = 0;
    while i < edges.len()
        invariant
            ev == edges_v(edges@),
            i <= edges@.len(),
            forall|k: int| 0 <= k < i ==> #[trigger] ev[k] != e@,
        decreases edges@.len() - i,
    {
        assert(ev[i as int] == edges@[i as int]@);
        if same_text(&edges[i].from_id, &e.from_id) && same_text(&edges[i].to_id, &e.to_id) && edges[i].kind == e.kind {
            assert(ev[i as int] == e@);
            return true;
        }
        i = i + 1;
    }
    false
}

/// The nodes of `nodes` whose id `other` lacks, in order.
fn nodes_missing_from(nodes: &Vec<Node>, other: &Vec<Node>) -> (r: Vec<Node>)
    ensures
        nodes_v(r@) == nodes_v(nodes@).filter(missing_nodes(nodes_v(other@))),
{
    let ghost nv = nodes_v(nodes@);
    let ghost ov = nodes_v(other@);
    let mut r: Vec<Node> = Vec::new();
    let mut i: usize = 0;
    while i < nodes.len()
        invariant
            nv == nodes_v(nodes@),
            ov == nodes_v(other@),
            i <= nv.len(),
            nodes_v(r@) == nv.take(i as int).filter(missing_nodes(ov)),
        decreases nv.len() - i,
    {
        assert(nv[i as int] == nodes@[i as int]@);
        if !contains_node_id(other, &nodes[i].id) {
            r.push(nodes[i].dup());
        }
        proof {
            assert(nv.take(i + 1).drop_last() =~= nv.take(i as int));
            reveal(Seq::filter);
            assert(nodes_v(r@) =~= nv.take(i + 1).filter(missing_nodes(ov)));
        }
        i = i + 1;
    }
    assert(nv.take(nv.len() as int) =~= nv);
    r
}

/// The edges of `edges` that `other` lacks, in order.
fn edges_missing_from(edges: &Vec<Edge>, other: &Vec<Edge>) -> (r: Vec<Edge>)
    ensures
        edges_v(r@) == edges_v(edges@).filter(missing_edges(edges_v(other@))),
{
    let ghost ev = edges_v(edges@);
    let ghost ov = edges_v(other@);
    let mut r: Vec<Edge> = Vec::new();
    let mut i: usize = 0;
    while i < edges.len()
        invariant
            ev == edges_v(edges@),
            ov == edges_v(other@),
            i <= ev.len(),
            edges_v(r@) == ev.take(i as int).filter(missing_edges(ov)),
        decreases ev.len() - i,
    {
        assert(ev[i as int] == edges@[i as int]@);
        if !contains_edge(other, &edges[i]) {
            r.push(edges[i].dup());
        }
        proof {
            assert(ev.take(i + 1).drop_last() =~= ev.take(i as int));
            reveal(Seq::filter);
            assert(edges_v(r@) =~= ev.take(i + 1).filter(missing_edges(ov)));
        }
        i = i + 1;
    }
    assert(ev.take(ev.len() as int) =~= ev);
    r
}

/// Computes the difference between a base and a head graph. Nodes are matched by id,
/// edges by their two ends and their kind; each list keeps the order of its graph.
pub fn diff(base_graph: &CodeGraph, head_graph: &CodeGraph) -> (d: GraphDiff)
    ensures
        nodes_v(d.added_nodes@) == head_graph.nv().filter(missing_nodes(base_graph.nv())),
        nodes_v(d.removed_nodes@) == base_graph.nv().filter(missing_nodes(head_graph.nv())),
        edges_v(d.added_edges@) == head_graph.ev().filter(missing_edges(base_graph.ev())),
        edges_v(d.removed_edges@) == base_graph.ev().filter(missing_edges(head_graph.ev())),
{
    GraphDiff {
        added_nodes: nodes_missing_from(&head_graph.nodes, &base_graph.nodes),
        removed_nodes: nodes_missing_from(&base_graph.nodes, &head_graph.nodes),
        added_edges: edges_missing_from(&head_graph.edges, &base_graph.edges),
        removed_edges: edges_missing_from(&base_graph.edges, &head_graph.edges),
    }
}

/// Filtering a list by what it lacks itself leaves nothing.
proof fn lemma_filter_none<A>(s: Seq<A>, p: spec_fn(A) -> bool)
    requires
        forall|k: int| 0 <= k < s.len() ==> !p(#[trigger] s[k]),
    ensures
        s.filter(p).len() == 0,
    decreases s.len(),
{
    reveal(Seq::filter);
    if s.len() > 0 {
        lemma_filter_none(s.drop_last(), p);
        assert(!p(s[s.len() - 1]));
    }
}

/// A graph compared with itself has no difference.
pub proof fn lemma_diff_self(g: CodeGraph)
    ensures
        g.nv().filter(missing_nodes(g.nv())).len() == 0,
        g.ev().filter(missing_edges(g.ev())).len() == 0,
{
    let nv = g.nv();
    let ev = g.ev();
    assert forall|k: int| 0 <= k < nv.len() implies !missing_nodes(nv)(#[trigger] nv[k]) by {
        assert(nv[k].id == nv[k].id);
    }
    lemma_filter_none(nv, missing_nodes(nv));
    assert forall|k: int| 0 <= k < ev.len() implies !missing_edges(ev)(#[trigger] ev[k]) by {
        assert(ev.contains(ev[k]));
    }
    lemma_filter_none(ev, missing_edges(ev));
}

} // verus!
