//! Questions asked of a code graph by the tool server: who calls or is called by a
//! function, which functions nothing calls, the graph cut to a number of nodes, and the
//! shortest dependency path between two nodes.

use vstd::prelude::*;
use crate::ir::{CodeGraph, Edge, EdgeKind, EdgeV, Node, NodeKind, NodeV, edges_v, nodes_v};
use crate::reach::{index_of, is_walk, lemma_reach_split, lemma_reach_zero, reach_in, reaches, step};
use crate::text::{chars_of, copy_string, matches_at, same_text, to_owned_string};
use crate::typescript::ends_with;

verus! {

/// Whether a node answers to a name: its label is the name, or its id ends with it.
pub open spec fn answers_to(n: NodeV, name: Seq<char>) -> bool {
    n.label == name || ends_with(n.id, name)
}

/// The position of the first node that answers to the name, if any.
pub open spec fn find_named(nodes: Seq<NodeV>, name: Seq<char>) -> Option<int>
    decreases nodes.len(),
{
    if nodes.len() == 0 {
        None
    } else {
        match find_named(nodes.drop_last(), name) {
            Some(i) => Some(i),
            None => if answers_to(nodes.last(), name) { Some(nodes.len() - 1) } else { None },
        }
    }
}

proof fn lemma_find_named(nodes: Seq<NodeV>, name: Seq<char>)
    ensures
        find_named(nodes, name) matches Some(i) ==> 0 <= i < nodes.len() && answers_to(nodes[i], name)
            && forall|j: int| 0 <= j < i ==> !answers_to(#[trigger] nodes[j], name),
        find_named(nodes, name) is None ==> forall|j: int| 0 <= j < nodes.len() ==> !answers_to(#[trigger] nodes[j], name),
    decreases nodes.len(),
{
    if nodes.len() > 0 {
        lemma_find_named(nodes.drop_last(), name);
        assert forall|j: int| 0 <= j < nodes.len() - 1 implies nodes[j] == nodes.drop_last()[j] by {}
    }
}

fn ends_with_text(s: &String, suffix: &str) -> (r: bool)
    ensures
        r == ends_with(s@, suffix@),
{
    let v = chars_of(s.as_str());
    let p = chars_of(suffix);
    if v.len() >= p.len() {
        matches_at(v.as_slice(), v.len() - p.len(), p.as_slice())
    } else {
        false
    }
}

/// The position of the first node of the graph that answers to the name, if any.
pub fn find_node(graph: &CodeGraph, name: &str) -> (r: Option<usize>)
    ensures
        match r {
            Some(i) => find_named(graph.nv(), name@) == Some(i as int) && i < graph.nodes@.len(),
            None => find_named(graph.nv(), name@) is None,
        },
{
    let n = to_owned_string(name);
    let mut i: usize = 0;
    proof {
        lemma_find_named(graph.nv(), name@);
    }
    while i < graph.nodes.len()
        invariant
            i <= graph.nodes@.len(),
            n@ == name@,
            forall|j: int| 0 <= j < i ==> !answers_to(#[trigger] graph.nv()[j], name@),
            find_named(graph.nv(), name@) matches Some(k) ==> 0 <= k < graph.nv().len() && answers_to(graph.nv()[k], name@)
                && forall|j: int| 0 <= j < k ==> !answers_to(#[trigger] graph.nv()[j], name@),
            find_named(graph.nv(), name@) is None ==> forall|j: int| 0 <= j < graph.nv().len() ==> !answers_to(#[trigger] graph.nv()[j], name@),
        decreases graph.nodes@.len() - i,
    {
        let x = &graph.nodes[i];
        assert(graph.nv()[i as int] == x@);
        if same_text(&x.label, &n) || ends_with_text(&x.id, name) {
            proof {
                match find_named(graph.nv(), name@) {
                    Some(k) => {
                        if k < i {
                            assert(!answers_to(graph.nv()[k], name@));
                        } else if k > i {
                            assert(!answers_to(graph.nv()[i as int], name@));
                        }
                    },
                    None => {
                        assert(!answers_to(graph.nv()[i as int], name@));
                    },
                }
            }
            return Some(i);
        }
        i = i + 1;
    }
    None
}

/// Whether some `Calls` edge goes from `a` to `b`.
pub open spec fn calls(edges: Seq<EdgeV>, a: Seq<char>, b: Seq<char>) -> bool {
    exists|i: int| 0 <= i < edges.len() && #[trigger] edges[i].from == a && edges[i].to == b && edges[i].kind == EdgeKind::Calls
}

/// Whether some `Calls` edge goes to `b`.
pub open spec fn called(edges: Seq<EdgeV>, b: Seq<char>) -> bool {
    exists|i: int| 0 <= i < edges.len() && #[trigger] edges[i].to == b && edges[i].kind == EdgeKind::Calls
}

fn calls_exec(edges: &Vec<Edge>, a: &String, b: &String) -> (r: bool)
    ensures
        r == calls(edges_v(edges@), a@, b@),
{
    let mut i: usize = 0;
    while i < edges.len()
        invariant
            i <= edges@.len(),
            forall|j: int| 0 <= j < i ==> !(#[trigger] edges_v(edges@)[j].from == a@ && edges_v(edges@)[j].to == b@
                && edges_v(edges@)[j].kind == EdgeKind::Calls),
        decreases edges@.len() - i,
    {
        let e = &edges[i];
        assert(edges_v(edges@)[i as int] == e@);
        if e.kind == EdgeKind::Calls && same_text(&e.from_id, a) && same_text(&e.to_id, b) {
            assert(edges_v(edges@)[i as int].from == a@ && edges_v(edges@)[i as int].to == b@);
            return true;
        }
        i = i + 1;
    }
    false
}

fn called_exec(edges: &Vec<Edge>, b: &String) -> (r: bool)
    ensures
        r == called(edges_v(edges@), b@),
{
    let mut i: usize = 0;
    while i < edges.len()
        invariant
            i <= edges@.len(),
            forall|j: int| 0 <= j < i ==> !(#[trigger] edges_v(edges@)[j].to == b@ && edges_v(edges@)[j].kind == EdgeKind::Calls),
        decreases edges@.len() - i,
    {
        let e = &edges[i];
        assert(edges_v(edges@)[i as int] == e@);
        if e.kind == EdgeKind::Calls && same_text(&e.to_id, b) {
            assert(edges_v(edges@)[i as int].to == b@);
            return true;
        }
        i = i + 1;
    }
    false
}

/// The nodes of the graph (in order) that call the first node answering to the name; none
/// where no node answers to it.
pub open spec fn callers_spec(g: CodeGraph, name: Seq<char>) -> Seq<NodeV> {
    match find_named(g.nv(), name) {
        Some(t) => g.nv().filter(|n: NodeV| calls(g.ev(), n.id, g.nv()[t].id)),
        None => seq![],
    }
}

/// The nodes of the graph (in order) that the first node answering to the name calls; none
/// where no node answers to it.
pub open spec fn callees_spec(g: CodeGraph, name: Seq<char>) -> Seq<NodeV> {
    match find_named(g.nv(), name) {
        Some(t) => g.nv().filter(|n: NodeV| calls(g.ev(), g.nv()[t].id, n.id)),
        None => seq![],
    }
}

/// The nodes of the graph (in order) that no `Calls` edge leads to.
pub open spec fn entry_points_spec(g: CodeGraph) -> Seq<NodeV> {
    g.nv().filter(|n: NodeV| !called(g.ev(), n.id))
}

/// The nodes that call the function named (see `callers_spec`).
pub fn callers_of(graph: &CodeGraph, fn_name: &str) -> (r: Vec<Node>)
    ensures
        nodes_v(r@) == callers_spec(*graph, fn_name@),
{
    let mut r: Vec<Node> = Vec::new();
    match find_node(graph, fn_name) {
        Some(t) => {
            let target = &graph.nodes[t].id;
            assert(target@ == graph.nv()[t as int].id);
            let ghost f = |n: NodeV| calls(graph.ev(), n.id, graph.nv()[t as int].id);
            let mut i: usize = 0;
            while i < graph.nodes.len()
                invariant
                    i <= graph.nodes@.len(),
                    target@ == graph.nv()[t as int].id,
                    f == (|n: NodeV| calls(graph.ev(), n.id, graph.nv()[t as int].id)),
                    nodes_v(r@) == graph.nv().take(i as int).filter(f),
                decreases graph.nodes@.len() - i,
            {
                let x = &graph.nodes[i];
                assert(graph.nv()[i as int] == x@);
                assert(graph.nv().take(i + 1).drop_last() =~= graph.nv().take(i as int));
                if calls_exec(&graph.edges, &x.id, target) {
                    r.push(x.dup());
                }
                i = i + 1;
                proof {
                    reveal(Seq::filter);
                    assert(nodes_v(r@) =~= graph.nv().take(i as int).filter(f));
                }
            }
            assert(graph.nv().take(i as int) =~= graph.nv());
        },
        None => {
            assert(nodes_v(r@) =~= Seq::<NodeV>::empty());
        },
    }
    r
}

/// The nodes that the function named calls (see `callees_spec`).
pub fn callees_of(graph: &CodeGraph, fn_name: &str) -> (r: Vec<Node>)
    ensures
        nodes_v(r@) == callees_spec(*graph, fn_name@),
{
    let mut r: Vec<Node> = Vec::new();
    match find_node(graph, fn_name) {
        Some(t) => {
            let source = &graph.nodes[t].id;
            let ghost f = |n: NodeV| calls(graph.ev(), graph.nv()[t as int].id, n.id);
            let mut i: usize = 0;
            while i < graph.nodes.len()
                invariant
                    i <= graph.nodes@.len(),
                    source@ == graph.nv()[t as int].id,
                    f == (|n: NodeV| calls(graph.ev(), graph.nv()[t as int].id, n.id)),
                    nodes_v(r@) == graph.nv().take(i as int).filter(f),
                decreases graph.nodes@.len() - i,
            {
                let x = &graph.nodes[i];
                assert(graph.nv()[i as int] == x@);
                assert(graph.nv().take(i + 1).drop_last() =~= graph.nv().take(i as int));
                if calls_exec(&graph.edges, source, &x.id) {
                    r.push(x.dup());
                }
                i = i + 1;
                proof {
                    reveal(Seq::filter);
                    assert(nodes_v(r@) =~= graph.nv().take(i as int).filter(f));
                }
            }
            assert(graph.nv().take(i as int) =~= graph.nv());
        },
        None => {
            assert(nodes_v(r@) =~= Seq::<NodeV>::empty());
        },
    }
    r
}

/// The nodes that nothing calls (see `entry_points_spec`).
pub fn entry_points(graph: &CodeGraph) -> (r: Vec<Node>)
    ensures
        nodes_v(r@) == entry_points_spec(*graph),
{
    let mut r: Vec<Node> = Vec::new();
    let ghost f = |n: NodeV| !called(graph.ev(), n.id);
    let mut i: usize = 0;
    while i < graph.nodes.len()
        invariant
            i <= graph.nodes@.len(),
            f == (|n: NodeV| !called(graph.ev(), n.id)),
            nodes_v(r@) == graph.nv().take(i as int).filter(f),
        decreases graph.nodes@.len() - i,
    {
        let x = &graph.nodes[i];
        assert(graph.nv()[i as int] == x@);
        assert(graph.nv().take(i + 1).drop_last() =~= graph.nv().take(i as int));
        if !called_exec(&graph.edges, &x.id) {
            r.push(x.dup());
        }
        i = i + 1;
        proof {
            reveal(Seq::filter);
            assert(nodes_v(r@) =~= graph.nv().take(i as int).filter(f));
        }
    }
    assert(graph.nv().take(i as int) =~= graph.nv());
    r
}

/// The graph cut to its first `max_nodes` nodes, with the edges whose ends both stay; the
/// counts follow. A graph within the bound is left as it is.
pub fn truncate_graph(graph: &mut CodeGraph, max_nodes: usize)
    ensures
        old(graph).nodes@.len() <= max_nodes ==> *final(graph) == *old(graph),
        old(graph).nodes@.len() > max_nodes ==> {
            &&& final(graph).nv() == old(graph).nv().take(max_nodes as int)
            &&& final(graph).ev() == old(graph).ev().filter(|e: EdgeV| kept(old(graph).nv().take(max_nodes as int), e))
            &&& final(graph).control_flow == old(graph).control_flow
            &&& final(graph).meta.language == old(graph).meta.language
            &&& final(graph).meta.source_root == old(graph).meta.source_root
            &&& final(graph).meta.generated_at == old(graph).meta.generated_at
            &&& final(graph).meta.node_count == max_nodes
            &&& final(graph).meta.edge_count == final(graph).edges@.len()
        },
{
    if graph.nodes.len() > max_nodes {
        let ghost nv0 = graph.nv();
        let ghost ev0 = graph.ev();
        graph.nodes.truncate(max_nodes);
        assert(graph.nv() =~= nv0.take(max_nodes as int));
        let ghost kept_nv = graph.nv();
        let mut edges: Vec<Edge> = Vec::new();
        let mut i: usize = 0;
        while i < graph.edges.len()
            invariant
                i <= graph.edges@.len(),
                graph.ev() == ev0,
                graph.nv() == kept_nv,
                edges_v(edges@) == ev0.take(i as int).filter(|e: EdgeV| kept(kept_nv, e)),
            decreases graph.edges@.len() - i,
        {
            let e = &graph.edges[i];
            assert(ev0[i as int] == e@);
            assert(ev0.take(i + 1).drop_last() =~= ev0.take(i as int));
            if has_id(&graph.nodes, &e.from_id) && has_id(&graph.nodes, &e.to_id) {
                edges.push(e.dup());
            }
            i = i + 1;
            proof {
                reveal(Seq::filter);
                assert(edges_v(edges@) =~= ev0.take(i as int).filter(|e: EdgeV| kept(kept_nv, e)));
            }
        }
        assert(ev0.take(i as int) =~= ev0);
        graph.edges = edges;
        graph.meta.node_count = graph.nodes.len();
        graph.meta.edge_count = graph.edges.len();
    }
}

/// Whether both ends of the edge are ids of the nodes.
pub open spec fn kept(nodes: Seq<NodeV>, e: EdgeV) -> bool {
    has_node(nodes, e.from) && has_node(nodes, e.to)
}

/// Whether some node has the id.
pub open spec fn has_node(nodes: Seq<NodeV>, id: Seq<char>) -> bool {
    exists|i: int| 0 <= i < nodes.len() && #[trigger] nodes[i].id == id
}

fn has_id(nodes: &Vec<Node>, id: &String) -> (r: bool)
    ensures
        r == has_node(nodes_v(nodes@), id@),
{
    let mut i: usize = 0;
    while i < nodes.len()
        invariant
            i <= nodes@.len(),
            forall|j: int| 0 <= j < i ==> #[trigger] nodes_v(nodes@)[j].id != id@,
        decreases nodes@.len() - i,
    {
        assert(nodes_v(nodes@)[i as int] == nodes@[i as int]@);
        if same_text(&nodes[i].id, id) {
            assert(nodes_v(nodes@)[i as int].id == id@);
            return true;
        }
        i = i + 1;
    }
    false
}

/// The number of edges whose target is not among the ids.
pub open spec fn unseen(ev: Seq<EdgeV>, sv: Seq<Seq<char>>) -> nat
    decreases ev.len(),
{
    if ev.len() == 0 { 0 } else { unseen(ev.drop_last(), sv) + if sv.contains(ev.last().to) { 0nat } else { 1nat } }
}

proof fn lemma_unseen_mono(ev: Seq<EdgeV>, s1: Seq<Seq<char>>, s2: Seq<Seq<char>>, j: int)
    requires
        forall|x: Seq<char>| s1.contains(x) ==> s2.contains(x),
    ensures
        unseen(ev, s2) <= unseen(ev, s1),
        0 <= j < ev.len() && !s1.contains(ev[j].to) && s2.contains(ev[j].to) ==> unseen(ev, s2) < unseen(ev, s1),
    decreases ev.len(),
{
    if ev.len() > 0 {
        lemma_unseen_mono(ev.drop_last(), s1, s2, j);
        if 0 <= j < ev.len() - 1 {
            assert(ev.drop_last()[j] == ev[j]);
        }
    }
}

/// Whether the search so far is sound: ids once each, the first one the start, each other
/// one reached from its parent by an edge and from the start by as many edges as its depth,
/// and by no fewer.
pub open spec fn bfs_ok(ev: Seq<EdgeV>, sv: Seq<Seq<char>>, dv: Seq<usize>, pv: Seq<usize>) -> bool {
    let a = sv[0];
    &&& sv.len() >= 1
    &&& dv.len() == sv.len()
    &&& pv.len() == sv.len()
    &&& dv[0] == 0
    &&& forall|i: int, j: int| 0 <= i < j < sv.len() ==> sv[i] != sv[j]
    &&& forall|i: int| 0 < i < sv.len() ==> #[trigger] pv[i] < i && dv[pv[i] as int] + 1 == dv[i]
        && step(ev, false, sv[pv[i] as int], sv[i])
    &&& forall|i: int| 0 <= i < sv.len() ==> #[trigger] reach_in(ev, false, a, sv[i], dv[i] as nat)
    &&& forall|i: int, n: nat| 0 <= i < sv.len() && n < dv[i] ==> !#[trigger] reach_in(ev, false, a, sv[i], n)
    &&& forall|i: int| 0 <= i < sv.len() && #[trigger] dv[i] == 0 ==> i == 0
}

/// Whether the ids from `lo` on are those of depth `k`, and the others lie above.
pub open spec fn bfs_layered(sv: Seq<Seq<char>>, dv: Seq<usize>, lo: int, k: int) -> bool {
    &&& 0 <= lo <= sv.len()
    &&& forall|i: int| 0 <= i < sv.len() ==> #[trigger] dv[i] <= k && (lo <= i <==> dv[i] == k)
}

/// Whether every id reached from the start in at most `k` edges has been found.
pub open spec fn bfs_complete(ev: Seq<EdgeV>, sv: Seq<Seq<char>>, k: nat) -> bool {
    forall|x: Seq<char>, n: nat| n <= k && #[trigger] reach_in(ev, false, sv[0], x, n) ==> sv.contains(x)
}

proof fn lemma_bfs_closed(ev: Seq<EdgeV>, sv: Seq<Seq<char>>, dv: Seq<usize>, pv: Seq<usize>, k: nat, x: Seq<char>, n: nat)
    requires
        bfs_ok(ev, sv, dv, pv),
        bfs_complete(ev, sv, k),
        forall|i: int| 0 <= i < sv.len() ==> #[trigger] dv[i] < k,
        reach_in(ev, false, sv[0], x, n),
    ensures
        sv.contains(x),
    decreases n,
{
    if n > k {
        lemma_reach_split(ev, false, sv[0], x, (n - 1) as nat);
        let m = choose|m: Seq<char>| #[trigger] reach_in(ev, false, sv[0], m, (n - 1) as nat) && step(ev, false, m, x);
        lemma_bfs_closed(ev, sv, dv, pv, k, m, (n - 1) as nat);
        let i = choose|i: int| 0 <= i < sv.len() && sv[i] == m;
        assert(reach_in(ev, false, sv[0], sv[i], dv[i] as nat));
        assert(dv[i] < k);
        lemma_reach_split(ev, false, sv[0], x, dv[i] as nat);
        assert(reach_in(ev, false, sv[0], x, (dv[i] + 1) as nat));
    }
}

proof fn lemma_bfs_push(ev: Seq<EdgeV>, sv: Seq<Seq<char>>, dv: Seq<usize>, pv: Seq<usize>, u: int, x: Seq<char>, k: nat)
    requires
        bfs_ok(ev, sv, dv, pv),
        0 <= u < sv.len(),
        dv[u] == k,
        k + 1 <= usize::MAX,
        u <= usize::MAX,
        step(ev, false, sv[u], x),
        !sv.contains(x),
        forall|n: nat| n <= k ==> !#[trigger] reach_in(ev, false, sv[0], x, n),
    ensures
        bfs_ok(ev, sv.push(x), dv.push((k + 1) as usize), pv.push(u as usize)),
{
    let sv1 = sv.push(x);
    let dv1 = dv.push((k + 1) as usize);
    let pv1 = pv.push(u as usize);
    let a = sv[0];
    assert(sv1[0] == a);
    lemma_reach_split(ev, false, a, x, k);
    assert(reach_in(ev, false, a, sv[u], dv[u] as nat));
    assert(reach_in(ev, false, a, x, k + 1));
    assert forall|i: int, j: int| 0 <= i < j < sv1.len() implies sv1[i] != sv1[j] by {
        if j == sv.len() {
            assert(sv1[i] == sv[i]);
            if sv[i] == x {
                assert(sv.contains(x));
            }
        }
    }
    assert forall|i: int| 0 < i < sv1.len() implies #[trigger] pv1[i] < i && dv1[pv1[i] as int] + 1 == dv1[i]
        && step(ev, false, sv1[pv1[i] as int], sv1[i]) by {
        if i < sv.len() {
            assert(pv[i] < i && dv[pv[i] as int] + 1 == dv[i] && step(ev, false, sv[pv[i] as int], sv[i]));
        }
    }
    assert forall|i: int| 0 <= i < sv1.len() implies #[trigger] reach_in(ev, false, a, sv1[i], dv1[i] as nat) by {
        if i < sv.len() {
            assert(reach_in(ev, false, a, sv[i], dv[i] as nat));
        }
    }
    assert forall|i: int, n: nat| 0 <= i < sv1.len() && n < dv1[i] implies !#[trigger] reach_in(ev, false, a, sv1[i], n) by {
        if i < sv.len() {
            assert(!reach_in(ev, false, a, sv[i], n));
        }
    }
    assert forall|i: int| 0 <= i < sv1.len() && #[trigger] dv1[i] == 0 implies i == 0 by {
        if i < sv.len() {
            assert(dv[i] == 0);
        }
    }
}

proof fn lemma_bfs_extend(ev: Seq<EdgeV>, sv0: Seq<Seq<char>>, dv0: Seq<usize>, pv0: Seq<usize>, sv: Seq<Seq<char>>, lo: int, k: nat)
    requires
        bfs_ok(ev, sv0, dv0, pv0),
        bfs_layered(sv0, dv0, lo, k as int),
        bfs_complete(ev, sv0, k),
        sv.len() >= sv0.len(),
        sv.take(sv0.len() as int) == sv0,
        forall|i: int, j: int| #![trigger ev[j], sv0[i]] lo <= i < sv0.len() && 0 <= j < ev.len() && ev[j].from == sv0[i] ==> sv.contains(ev[j].to),
    ensures
        bfs_complete(ev, sv, k + 1),
{
    let a = sv0[0];
    assert(sv[0] == sv.take(sv0.len() as int)[0]);
    assert forall|x: Seq<char>, n: nat| n <= k + 1 && #[trigger] reach_in(ev, false, sv[0], x, n) implies sv.contains(x) by {
        if n <= k {
            assert(sv0.contains(x));
            let i = choose|i: int| 0 <= i < sv0.len() && sv0[i] == x;
            assert(sv[i] == sv.take(sv0.len() as int)[i]);
        } else {
            lemma_reach_split(ev, false, a, x, k);
            let m = choose|m: Seq<char>| #[trigger] reach_in(ev, false, a, m, k) && step(ev, false, m, x);
            assert(sv0.contains(m));
            let i = choose|i: int| 0 <= i < sv0.len() && sv0[i] == m;
            if dv0[i] == k {
                let j = choose|j: int| 0 <= j < ev.len() && #[trigger] ev[j].from == m && ev[j].to == x && crate::reach::edge_ok(ev[j], false);
                assert(ev[j].from == sv0[i]);
                assert(sv.contains(ev[j].to));
            } else {
                assert(reach_in(ev, false, a, sv0[i], dv0[i] as nat));
                lemma_reach_split(ev, false, a, x, dv0[i] as nat);
                assert(reach_in(ev, false, a, x, (dv0[i] + 1) as nat));
                assert(sv0.contains(x));
                let i2 = choose|i2: int| 0 <= i2 < sv0.len() && sv0[i2] == x;
                assert(sv[i2] == sv.take(sv0.len() as int)[i2]);
            }
        }
    }
}

/// One more target for the layer being found: it joins the layer where it is new.
proof fn lemma_new_layer_step(pt: Seq<Seq<char>>, t: Seq<char>, sv0: Seq<Seq<char>>, nb: Seq<Seq<char>>, svb: Seq<Seq<char>>, hi: int)
    requires
        nb == new_ids(pt, sv0),
        svb == sv0 + nb,
        hi == sv0.len(),
    ensures
        svb.contains(t) ==> new_ids(pt.push(t), sv0) == nb,
        !svb.contains(t) ==> new_ids(pt.push(t), sv0) == nb.push(t),
{
    lemma_new_ids_push(pt, t, sv0);
    if svb.contains(t) {
        let w = choose|w: int| 0 <= w < svb.len() && svb[w] == t;
        if w < hi {
            assert(sv0[w] == t);
        } else {
            assert(nb[w - hi] == t);
        }
    } else {
        if sv0.contains(t) {
            let w = choose|w: int| 0 <= w < sv0.len() && sv0[w] == t;
            assert(svb[w] == t);
        }
        if nb.contains(t) {
            let w = choose|w: int| 0 <= w < nb.len() && nb[w] == t;
            assert(svb[hi + w] == t);
        }
    }
}

/// An id first found from the id at `u` of the current layer has that id as its parent.
proof fn lemma_parent_of_new(ev: Seq<EdgeV>, sv0: Seq<Seq<char>>, lay: Seq<Seq<char>>, lo: int, hi: int, u: int,
    svb: Seq<Seq<char>>, x: Seq<char>, k: nat, j: int)
    requires
        0 <= lo <= u < hi,
        hi == sv0.len(),
        lay == sv0.subrange(lo, hi),
        svb.len() >= hi,
        svb.take(hi) == sv0,
        forall|i: int, j2: int| #![trigger ev[j2], sv0[i]] lo <= i < u && 0 <= j2 < ev.len() && ev[j2].from == sv0[i]
            ==> svb.contains(ev[j2].to),
        !svb.contains(x),
        0 <= j < ev.len(),
        ev[j].from == sv0[u],
        ev[j].to == x,
        bfs_layers(ev, sv0[0], k).1 == lay,
    ensures
        bfs_parent(ev, sv0[0], x, k + 1) == sv0[u],
{
    assert forall|i2: int| 0 <= i2 < u - lo implies !step(ev, false, #[trigger] lay[i2], x) by {
        if step(ev, false, lay[i2], x) {
            let jj = choose|jj: int| 0 <= jj < ev.len() && #[trigger] ev[jj].from == lay[i2]
                && ev[jj].to == x && crate::reach::edge_ok(ev[jj], false);
            assert(lay[i2] == sv0[lo + i2]);
            assert(ev[jj].from == sv0[lo + i2]);
            assert(svb.contains(ev[jj].to));
        }
    }
    assert(lay[u - lo] == sv0[u]);
    assert(step(ev, false, lay[u - lo], x)) by {
        assert(ev[j].from == lay[u - lo] && ev[j].to == x);
    }
    lemma_first_step_at(ev, lay, x, u - lo);
    assert(((k + 1) - 1) as nat == k);
}

/// Agreement with the breadth-first tree survives finding one more id from the id at `u`.
proof fn lemma_parents_push(ev: Seq<EdgeV>, sv: Seq<Seq<char>>, dv: Seq<usize>, pv: Seq<usize>, x: Seq<char>, d: nat, u: int)
    requires
        parents_agree(ev, sv, dv, pv),
        sv.len() > 0,
        dv.len() == sv.len(),
        pv.len() == sv.len(),
        forall|i: int| 0 < i < sv.len() ==> #[trigger] pv[i] < i,
        0 <= u < sv.len(),
        d <= usize::MAX,
        u <= usize::MAX,
        sv[u] == bfs_parent(ev, sv[0], x, d),
    ensures
        parents_agree(ev, sv.push(x), dv.push(d as usize), pv.push(u as usize)),
{
    let sv1 = sv.push(x);
    let dv1 = dv.push(d as usize);
    let pv1 = pv.push(u as usize);
    assert forall|i: int| #![trigger pv1[i]] 0 < i < sv1.len()
        implies sv1[pv1[i] as int] == bfs_parent(ev, sv1[0], sv1[i], dv1[i] as nat) by {
        if i < sv.len() {
            assert(pv1[i] == pv[i]);
            assert(pv[i] < i);
            assert(sv[pv[i] as int] == bfs_parent(ev, sv[0], sv[i], dv[i] as nat));
        }
    }
}

/// The layer found, after the ids found before, makes the search one layer deeper.
proof fn lemma_layer_done(ev: Seq<EdgeV>, sv0: Seq<Seq<char>>, lay: Seq<Seq<char>>, hi: int, k: nat,
    sv: Seq<Seq<char>>, a0: Seq<char>)
    requires
        bfs_layers(ev, a0, k).0 == sv0,
        bfs_layers(ev, a0, k).1 == lay,
        hi == sv0.len(),
        sv.len() >= hi,
        sv.take(hi) == sv0,
        sv.subrange(hi, sv.len() as int) == new_ids(layer_targets(ev, lay), sv0),
    ensures
        bfs_layers(ev, a0, k + 1).0 == sv,
        bfs_layers(ev, a0, k + 1).1 == sv.subrange(hi, sv.len() as int),
{
    assert(((k + 1) - 1) as nat == k);
    assert(sv =~= sv0 + sv.subrange(hi, sv.len() as int));
}

/// Finds the next layer of the search: every id that an edge leads to from the current
/// layer (from `lo` on), not yet found, in the order of the layer and of the edges.
fn next_layer(edges: &Vec<Edge>, seen: &mut Vec<String>, depth: &mut Vec<usize>, parent: &mut Vec<usize>, lo: usize, k: usize)
    requires
        bfs_ok(edges_v(edges@), old(seen).deep_view(), old(depth)@, old(parent)@),
        bfs_layered(old(seen).deep_view(), old(depth)@, lo as int, k as int),
        bfs_complete(edges_v(edges@), old(seen).deep_view(), k as nat),
        k < usize::MAX,
        old(seen)@.len() == old(seen).deep_view().len(),
        bfs_layers(edges_v(edges@), old(seen).deep_view()[0], k as nat).0 == old(seen).deep_view(),
        bfs_layers(edges_v(edges@), old(seen).deep_view()[0], k as nat).1
            == old(seen).deep_view().subrange(lo as int, old(seen).deep_view().len() as int),
        parents_agree(edges_v(edges@), old(seen).deep_view(), old(depth)@, old(parent)@),
    ensures
        bfs_ok(edges_v(edges@), final(seen).deep_view(), final(depth)@, final(parent)@),
        bfs_layered(final(seen).deep_view(), final(depth)@, old(seen)@.len() as int, k + 1),
        bfs_complete(edges_v(edges@), final(seen).deep_view(), (k + 1) as nat),
        final(seen).deep_view().len() >= old(seen).deep_view().len(),
        final(seen).deep_view().take(old(seen).deep_view().len() as int) == old(seen).deep_view(),
        final(seen)@.len() == final(seen).deep_view().len(),
        bfs_layers(edges_v(edges@), final(seen).deep_view()[0], (k + 1) as nat).0 == final(seen).deep_view(),
        bfs_layers(edges_v(edges@), final(seen).deep_view()[0], (k + 1) as nat).1
            == final(seen).deep_view().subrange(old(seen)@.len() as int, final(seen).deep_view().len() as int),
        parents_agree(edges_v(edges@), final(seen).deep_view(), final(depth)@, final(parent)@),
        unseen(edges_v(edges@), final(seen).deep_view()) <= unseen(edges_v(edges@), old(seen).deep_view()),
        final(seen)@.len() > old(seen)@.len() ==>
            unseen(edges_v(edges@), final(seen).deep_view()) < unseen(edges_v(edges@), old(seen).deep_view()),
{
    let ghost ev = edges_v(edges@);
    let ghost sv0 = seen.deep_view();
    let ghost dv0 = depth@;
    let ghost pv0 = parent@;
    let hi = seen.len();
    let ghost a0 = sv0[0];
    let ghost lay = sv0.subrange(lo as int, hi as int);
    assert(lay.take(0) =~= Seq::<Seq<char>>::empty());
    assert(seen.deep_view().subrange(hi as int, hi as int) =~= Seq::<Seq<char>>::empty());
    let mut u: usize = lo;
    while u < hi
        invariant
            lo <= u <= hi,
            hi == sv0.len(),
            ev == edges_v(edges@),
            bfs_ok(ev, sv0, dv0, pv0),
            bfs_layered(sv0, dv0, lo as int, k as int),
            bfs_complete(ev, sv0, k as nat),
            k < usize::MAX,
            seen@.len() == seen.deep_view().len(),
            seen.deep_view().len() >= hi,
            seen.deep_view().take(hi as int) == sv0,
            depth@.take(hi as int) == dv0,
            bfs_ok(ev, seen.deep_view(), depth@, parent@),
            forall|i: int| hi <= i < depth@.len() ==> #[trigger] depth@[i] == k + 1,
            forall|i: int, j: int| #![trigger ev[j], sv0[i]] lo <= i < u && 0 <= j < ev.len() && ev[j].from == sv0[i]
                ==> seen.deep_view().contains(ev[j].to),
            unseen(ev, seen.deep_view()) <= unseen(ev, sv0),
            seen@.len() > hi ==> unseen(ev, seen.deep_view()) < unseen(ev, sv0),
            a0 == sv0[0],
            lay == sv0.subrange(lo as int, hi as int),
            bfs_layers(ev, a0, k as nat).0 == sv0,
            bfs_layers(ev, a0, k as nat).1 == lay,
            seen.deep_view().subrange(hi as int, seen.deep_view().len() as int)
                == new_ids(layer_targets(ev, lay.take(u - lo)), sv0),
            parents_agree(ev, seen.deep_view(), depth@, parent@),
        decreases hi - u,
    {
        assert(seen.deep_view()[u as int] == sv0[u as int]) by {
            assert(seen.deep_view().take(hi as int)[u as int] == seen.deep_view()[u as int]);
        }
        assert(dv0[u as int] == k);
        assert(ev.take(0) =~= Seq::<EdgeV>::empty());
        assert(layer_targets(ev, lay.take(u - lo)) + targets(ev.take(0), sv0[u as int]) =~= layer_targets(ev, lay.take(u - lo)));
        let mut j: usize = 0;
        while j < edges.len()
            invariant
                j <= edges@.len(),
                lo <= u < hi,
                hi == sv0.len(),
                ev == edges_v(edges@),
                bfs_ok(ev, sv0, dv0, pv0),
                bfs_layered(sv0, dv0, lo as int, k as int),
                bfs_complete(ev, sv0, k as nat),
                k < usize::MAX,
                dv0[u as int] == k,
                seen@.len() == seen.deep_view().len(),
                seen.deep_view().len() >= hi,
                seen.deep_view().take(hi as int) == sv0,
                depth@.take(hi as int) == dv0,
                bfs_ok(ev, seen.deep_view(), depth@, parent@),
                forall|i: int| hi <= i < depth@.len() ==> #[trigger] depth@[i] == k + 1,
                forall|i: int, j2: int| #![trigger ev[j2], sv0[i]] lo <= i < u && 0 <= j2 < ev.len() && ev[j2].from == sv0[i]
                    ==> seen.deep_view().contains(ev[j2].to),
                forall|j2: int| 0 <= j2 < j && #[trigger] ev[j2].from == sv0[u as int] ==> seen.deep_view().contains(ev[j2].to),
                unseen(ev, seen.deep_view()) <= unseen(ev, sv0),
                seen@.len() > hi ==> unseen(ev, seen.deep_view()) < unseen(ev, sv0),
                a0 == sv0[0],
                lay == sv0.subrange(lo as int, hi as int),
                bfs_layers(ev, a0, k as nat).0 == sv0,
                bfs_layers(ev, a0, k as nat).1 == lay,
                seen.deep_view().subrange(hi as int, seen.deep_view().len() as int)
                    == new_ids(layer_targets(ev, lay.take(u - lo)) + targets(ev.take(j as int), sv0[u as int]), sv0),
                parents_agree(ev, seen.deep_view(), depth@, parent@),
            decreases edges@.len() - j,
        {
            let e = &edges[j];
            assert(ev[j as int] == e@);
            let ghost svb = seen.deep_view();
            let ghost nb = svb.subrange(hi as int, svb.len() as int);
            let ghost pt = layer_targets(ev, lay.take(u - lo)) + targets(ev.take(j as int), sv0[u as int]);
            assert(svb =~= sv0 + nb) by {
                assert(svb.take(hi as int) == sv0);
            }
            proof {
                lemma_targets_take(ev, j as int, sv0[u as int]);
            }
            assert(svb[u as int] == sv0[u as int]) by {
                assert(svb.take(hi as int)[u as int] == svb[u as int]);
            }
            if !same_text(&e.from_id, &seen[u]) {
                proof {
                    assert(pt =~= layer_targets(ev, lay.take(u - lo)) + targets(ev.take(j + 1), sv0[u as int]));
                }
            } else {
                match index_of(seen, &e.to_id) {
                    Some(_) => {
                        proof {
                            let t = ev[j as int].to;
                            assert(pt.push(t) =~= layer_targets(ev, lay.take(u - lo)) + targets(ev.take(j + 1), sv0[u as int]));
                            lemma_new_layer_step(pt, t, sv0, nb, svb, hi as int);
                        }
                    },
                    None => {
                        let ghost x = e.to_id@;
                        proof {
                            assert(step(ev, false, svb[u as int], x)) by {
                                assert(ev[j as int].from == svb[u as int] && ev[j as int].to == x);
                            }
                            assert(depth@[u as int] == k) by {
                                assert(depth@.take(hi as int)[u as int] == depth@[u as int]);
                            }
                            assert forall|n: nat| n <= k implies !#[trigger] reach_in(ev, false, svb[0], x, n) by {
                                assert(svb[0] == sv0[0]) by {
                                    assert(svb.take(hi as int)[0] == svb[0]);
                                }
                                if reach_in(ev, false, svb[0], x, n) {
                                    assert(sv0.contains(x));
                                    let i = choose|i: int| 0 <= i < sv0.len() && sv0[i] == x;
                                    assert(svb[i] == svb.take(hi as int)[i]);
                                    assert(svb.contains(x));
                                }
                            }
                            lemma_bfs_push(ev, svb, depth@, parent@, u as int, x, k as nat);
                        }
                        let ghost before = seen.deep_view();
                        let ghost dbefore = depth@;
                        let ghost pbefore = parent@;
                        seen.push(copy_string(&e.to_id));
                        depth.push(k + 1);
                        parent.push(u);
                        proof {
                            assert(seen.deep_view() =~= before.push(x));
                            assert(seen.deep_view().take(hi as int) =~= before.take(hi as int));
                            assert(depth@.take(hi as int) =~= dbefore.take(hi as int));
                            assert forall|y: Seq<char>| before.contains(y) implies seen.deep_view().contains(y) by {
                                let i = choose|i: int| 0 <= i < before.len() && before[i] == y;
                                assert(seen.deep_view()[i] == y);
                            }
                            assert(seen.deep_view()[before.len() as int] == x);
                            lemma_unseen_mono(ev, before, seen.deep_view(), j as int);
                            assert(ev[j as int].to == x);
                            lemma_new_layer_step(pt, x, sv0, nb, svb, hi as int);
                            assert(seen.deep_view() =~= svb.push(x));
                            assert(seen.deep_view().subrange(hi as int, seen.deep_view().len() as int) =~= nb.push(x));
                            assert(pt.push(x) =~= layer_targets(ev, lay.take(u - lo)) + targets(ev.take(j + 1), sv0[u as int]));
                            assert(ev[j as int].from == sv0[u as int]);
                            lemma_parent_of_new(ev, sv0, lay, lo as int, hi as int, u as int, svb, x, k as nat, j as int);
                            assert(svb[u as int] == sv0[u as int]);
                            lemma_parents_push(ev, svb, dbefore, pbefore, x, (k + 1) as nat, u as int);
                            assert(parent@ =~= pbefore.push(u));
                            assert(depth@ =~= dbefore.push((k + 1) as usize));
                        }
                    },
                }
            }
            proof {
                assert forall|j2: int| 0 <= j2 < j + 1 && #[trigger] ev[j2].from == sv0[u as int] implies seen.deep_view().contains(ev[j2].to) by {
                    if j2 == j {
                        if !svb.contains(ev[j2].to) {
                            assert(seen.deep_view()[svb.len() as int] == ev[j2].to);
                        } else {
                            let i = choose|i: int| 0 <= i < svb.len() && svb[i] == ev[j2].to;
                            assert(seen.deep_view()[i] == svb[i]);
                        }
                    } else {
                        assert(svb.contains(ev[j2].to));
                        let i = choose|i: int| 0 <= i < svb.len() && svb[i] == ev[j2].to;
                        assert(seen.deep_view()[i] == svb[i]);
                    }
                }
                assert forall|i: int, j2: int| #![trigger ev[j2], sv0[i]] lo <= i < u && 0 <= j2 < ev.len() && ev[j2].from == sv0[i]
                    implies seen.deep_view().contains(ev[j2].to) by {
                    assert(svb.contains(ev[j2].to));
                    let i2 = choose|i2: int| 0 <= i2 < svb.len() && svb[i2] == ev[j2].to;
                    assert(seen.deep_view()[i2] == svb[i2]);
                }
            }
            j = j + 1;
        }
        proof {
            assert(j == ev.len());
            assert(ev.take(j as int) =~= ev);
            assert(lay[u - lo] == sv0[u as int]);
            lemma_layer_targets_take(ev, lay, u - lo);
        }
        u = u + 1;
    }
    proof {
        lemma_bfs_extend(ev, sv0, dv0, pv0, seen.deep_view(), lo as int, k as nat);
        assert(lay.take(hi - lo) =~= lay);
        assert(seen.deep_view()[0] == seen.deep_view().take(hi as int)[0]);
        lemma_layer_done(ev, sv0, lay, hi as int, k as nat, seen.deep_view(), a0);
        assert forall|i: int| 0 <= i < seen.deep_view().len() implies #[trigger] depth@[i] <= k + 1
            && (hi <= i <==> depth@[i] == k + 1) by {
            if i < hi {
                assert(depth@.take(hi as int)[i] == depth@[i]);
            }
        }
    }
}

/// Whether `p` is a shortest path from `a` to `b` along any edges.
pub open spec fn shortest_path(ev: Seq<EdgeV>, a: Seq<char>, b: Seq<char>, p: Seq<Seq<char>>) -> bool {
    &&& is_walk(ev, false, p)
    &&& p[0] == a
    &&& p.last() == b
    &&& forall|n: nat| n < p.len() - 1 ==> !#[trigger] reach_in(ev, false, a, b, n)
}

/// Whether `x` is reached from `a` by `d` edges and by no fewer.
pub open spec fn at_depth(ev: Seq<EdgeV>, a: Seq<char>, x: Seq<char>, d: nat) -> bool {
    reach_in(ev, false, a, x, d) && forall|m: nat| m < d ==> !#[trigger] reach_in(ev, false, a, x, m)
}

/// The targets of the edges from `u`, in the order of the edges.
pub open spec fn targets(ev: Seq<EdgeV>, u: Seq<char>) -> Seq<Seq<char>>
    decreases ev.len(),
{
    if ev.len() == 0 {
        seq![]
    } else {
        targets(ev.drop_last(), u) + if ev.last().from == u { seq![ev.last().to] } else { seq![] }
    }
}

/// The targets of the edges from each id of the list, the list's order first.
pub open spec fn layer_targets(ev: Seq<EdgeV>, ids: Seq<Seq<char>>) -> Seq<Seq<char>>
    decreases ids.len(),
{
    if ids.len() == 0 {
        seq![]
    } else {
        layer_targets(ev, ids.drop_last()) + targets(ev, ids.last())
    }
}

/// The ids of `s` that `found` lacks, each once, in the order of their first occurrence.
pub open spec fn new_ids(s: Seq<Seq<char>>, found: Seq<Seq<char>>) -> Seq<Seq<char>>
    decreases s.len(),
{
    if s.len() == 0 {
        seq![]
    } else {
        let r = new_ids(s.drop_last(), found);
        if found.contains(s.last()) || r.contains(s.last()) { r } else { r.push(s.last()) }
    }
}

/// Breadth-first search from `a`, `d` layers deep: every id found so far, in the order
/// found, and the ids of the last layer. Each layer holds the ids not found before that the
/// edges from the layer before lead to, that layer's order first and then the edges' order.
pub open spec fn bfs_layers(ev: Seq<EdgeV>, a: Seq<char>, d: nat) -> (Seq<Seq<char>>, Seq<Seq<char>>)
    decreases d,
{
    if d == 0 {
        (seq![a], seq![a])
    } else {
        let (found, last) = bfs_layers(ev, a, (d - 1) as nat);
        let next = new_ids(layer_targets(ev, last), found);
        (found + next, next)
    }
}

/// The position of the first id of the list with an edge to `x`, or the list's length.
pub open spec fn first_step(ev: Seq<EdgeV>, ids: Seq<Seq<char>>, x: Seq<char>) -> int
    decreases ids.len(),
{
    if ids.len() == 0 {
        0
    } else {
        let f = first_step(ev, ids.drop_last(), x);
        if f < ids.len() - 1 {
            f
        } else if step(ev, false, ids.last(), x) {
            ids.len() - 1
        } else {
            ids.len() as int
        }
    }
}

/// The parent of an id of layer `d` in the breadth-first tree from `a`: the first id of the
/// layer before with an edge to it.
pub open spec fn bfs_parent(ev: Seq<EdgeV>, a: Seq<char>, x: Seq<char>, d: nat) -> Seq<char> {
    if d == 0 {
        a
    } else {
        let prev = bfs_layers(ev, a, (d - 1) as nat).1;
        prev[first_step(ev, prev, x)]
    }
}

/// The path of the breadth-first tree from `a` to `x`, where `x` lies in layer `d`.
pub open spec fn bfs_path(ev: Seq<EdgeV>, a: Seq<char>, x: Seq<char>, d: nat) -> Seq<Seq<char>>
    decreases d,
{
    if d == 0 {
        seq![x]
    } else {
        bfs_path(ev, a, bfs_parent(ev, a, x, d), (d - 1) as nat).push(x)
    }
}

/// The path from `a` to `b` that breadth-first search, taking the edges in order, finds.
pub open spec fn bfs_route(ev: Seq<EdgeV>, a: Seq<char>, b: Seq<char>) -> Seq<Seq<char>> {
    bfs_path(ev, a, b, choose|d: nat| at_depth(ev, a, b, d))
}

/// Whether each id found after the first is found from its parent in the breadth-first tree.
pub open spec fn parents_agree(ev: Seq<EdgeV>, sv: Seq<Seq<char>>, dv: Seq<usize>, pv: Seq<usize>) -> bool {
    forall|i: int| #![trigger pv[i]] 0 < i < sv.len() ==> sv[pv[i] as int] == bfs_parent(ev, sv[0], sv[i], dv[i] as nat)
}

proof fn lemma_first_step(ev: Seq<EdgeV>, ids: Seq<Seq<char>>, x: Seq<char>)
    ensures
        0 <= first_step(ev, ids, x) <= ids.len(),
        first_step(ev, ids, x) < ids.len() ==> step(ev, false, ids[first_step(ev, ids, x)], x),
        forall|i: int| 0 <= i < first_step(ev, ids, x) ==> !step(ev, false, #[trigger] ids[i], x),
    decreases ids.len(),
{
    if ids.len() > 0 {
        let q = ids.drop_last();
        lemma_first_step(ev, q, x);
        assert forall|i: int| 0 <= i < q.len() implies q[i] == ids[i] by {}
    }
}

proof fn lemma_first_step_at(ev: Seq<EdgeV>, ids: Seq<Seq<char>>, x: Seq<char>, i: int)
    requires
        0 <= i < ids.len(),
        step(ev, false, ids[i], x),
        forall|i2: int| 0 <= i2 < i ==> !step(ev, false, #[trigger] ids[i2], x),
    ensures
        first_step(ev, ids, x) == i,
{
    lemma_first_step(ev, ids, x);
    let f = first_step(ev, ids, x);
    if f < i {
        assert(step(ev, false, ids[f], x));
    } else if f > i {
        assert(!step(ev, false, ids[i], x));
    }
}

proof fn lemma_new_ids_push(s: Seq<Seq<char>>, t: Seq<char>, found: Seq<Seq<char>>)
    ensures
        new_ids(s.push(t), found) == if found.contains(t) || new_ids(s, found).contains(t) {
            new_ids(s, found)
        } else {
            new_ids(s, found).push(t)
        },
{
    assert(s.push(t).drop_last() =~= s);
}

proof fn lemma_targets_take(ev: Seq<EdgeV>, j: int, u: Seq<char>)
    requires
        0 <= j < ev.len(),
    ensures
        targets(ev.take(j + 1), u) == targets(ev.take(j), u) + if ev[j].from == u { seq![ev[j].to] } else { seq![] },
{
    assert(ev.take(j + 1).drop_last() =~= ev.take(j));
}

proof fn lemma_layer_targets_take(ev: Seq<EdgeV>, ids: Seq<Seq<char>>, i: int)
    requires
        0 <= i < ids.len(),
    ensures
        layer_targets(ev, ids.take(i + 1)) == layer_targets(ev, ids.take(i)) + targets(ev, ids[i]),
{
    assert(ids.take(i + 1).drop_last() =~= ids.take(i));
}

/// The breadth-first path to an id of layer `d` has `d + 1` ids, ends at the id, and before
/// that is the path to its parent.
proof fn lemma_bfs_path(ev: Seq<EdgeV>, a: Seq<char>, x: Seq<char>, d: nat)
    ensures
        bfs_path(ev, a, x, d).len() == d + 1,
        bfs_path(ev, a, x, d).last() == x,
        d > 0 ==> bfs_path(ev, a, x, d).drop_last() == bfs_path(ev, a, bfs_parent(ev, a, x, d), (d - 1) as nat),
    decreases d,
{
    if d > 0 {
        lemma_bfs_path(ev, a, bfs_parent(ev, a, x, d), (d - 1) as nat);
    }
}

/// The ids of a shortest path from `a` to `b` along the edges of any kind, found breadth
/// first (layer by layer, in the order of the edges); none where `b` is not reached.
pub fn shortest_path_ids(edges: &Vec<Edge>, a: &String, b: &String) -> (r: Option<Vec<String>>)
    ensures
        r is Some <==> reaches(edges_v(edges@), false, a@, b@),
        r matches Some(p) ==> shortest_path(edges_v(edges@), a@, b@, p.deep_view()),
        r matches Some(p) ==> p.deep_view() == bfs_route(edges_v(edges@), a@, b@),
{
    let ghost ev = edges_v(edges@);
    let mut seen: Vec<String> = Vec::new();
    seen.push(copy_string(a));
    let mut depth: Vec<usize> = Vec::new();
    depth.push(0);
    let mut parent: Vec<usize> = Vec::new();
    parent.push(0);
    let mut lo: usize = 0;
    let mut k: usize = 0;
    proof {
        let sv = seen.deep_view();
        assert(sv =~= seq![a@]);
        assert(sv.subrange(0, 1) =~= sv);
        lemma_reach_zero(ev, false, a@);
        assert(reach_in(ev, false, sv[0], sv[0], depth@[0] as nat));
        assert forall|x: Seq<char>, n: nat| n <= 0 && #[trigger] reach_in(ev, false, sv[0], x, n) implies sv.contains(x) by {
            let p = choose|p: Seq<Seq<char>>| #[trigger] is_walk(ev, false, p) && p.len() == n + 1 && p[0] == sv[0] && p[n as int] == x;
            assert(sv[0] == x);
        }
    }
    loop
        invariant
            ev == edges_v(edges@),
            seen@.len() == seen.deep_view().len(),
            seen.deep_view()[0] == a@,
            bfs_ok(ev, seen.deep_view(), depth@, parent@),
            bfs_layered(seen.deep_view(), depth@, lo as int, k as int),
            bfs_complete(ev, seen.deep_view(), k as nat),
            k <= lo,
            forall|i: int| 0 <= i < lo ==> #[trigger] seen.deep_view()[i] != b@,
            bfs_layers(ev, a@, k as nat).0 == seen.deep_view(),
            bfs_layers(ev, a@, k as nat).1 == seen.deep_view().subrange(lo as int, seen.deep_view().len() as int),
            parents_agree(ev, seen.deep_view(), depth@, parent@),
        decreases unseen(ev, seen.deep_view()), seen@.len() - lo,
    {
        let hi = seen.len();
        let mut t: usize = lo;
        while t < hi && !same_text(&seen[t], b)
            invariant
                lo <= t <= hi,
                hi == seen@.len(),
                seen@.len() == seen.deep_view().len(),
                forall|i: int| 0 <= i < t ==> #[trigger] seen.deep_view()[i] != b@,
            decreases hi - t,
        {
            t = t + 1;
        }
        if t < hi {
            let p = path_to(&seen, &depth, &parent, t, Ghost(ev));
            proof {
                assert(seen.deep_view()[t as int] == b@);
                assert(reach_in(ev, false, seen.deep_view()[0], seen.deep_view()[t as int], depth@[t as int] as nat));
                assert(reach_in(ev, false, a@, b@, depth@[t as int] as nat));
                assert forall|n: nat| n < p.deep_view().len() - 1 implies !#[trigger] reach_in(ev, false, a@, b@, n) by {
                    assert(!reach_in(ev, false, seen.deep_view()[0], seen.deep_view()[t as int], n));
                }
                let dt = depth@[t as int] as nat;
                assert(at_depth(ev, a@, b@, dt));
                let d = choose|d: nat| at_depth(ev, a@, b@, d);
                assert(at_depth(ev, a@, b@, d));
                if d < dt {
                    assert(!reach_in(ev, false, a@, b@, d));
                } else if d > dt {
                    assert(!reach_in(ev, false, a@, b@, dt));
                }
            }
            return Some(p);
        }
        if lo == hi {
            proof {
                let sv = seen.deep_view();
                assert forall|i: int| 0 <= i < sv.len() implies #[trigger] depth@[i] < k by {
                    assert(depth@[i] <= k && (lo <= i <==> depth@[i] == k));
                }
                if reaches(ev, false, a@, b@) {
                    let n = choose|n: nat| reach_in(ev, false, a@, b@, n);
                    lemma_bfs_closed(ev, sv, depth@, parent@, k as nat, b@, n);
                    let i = choose|i: int| 0 <= i < sv.len() && sv[i] == b@;
                    assert(sv[i] != b@);
                }
            }
            return None;
        }
        let ghost sv_before = seen.deep_view();
        next_layer(edges, &mut seen, &mut depth, &mut parent, lo, k);
        proof {
            assert(seen.deep_view()[0] == seen.deep_view().take(hi as int)[0]);
            assert forall|i: int| 0 <= i < hi implies #[trigger] seen.deep_view()[i] != b@ by {
                assert(seen.deep_view()[i] == seen.deep_view().take(hi as int)[i]);
                assert(sv_before[i] != b@);
            }
        }
        lo = hi;
        k = k + 1;
    }
}

/// The path that the parents lead along, from the start to the id at `t`.
fn path_to(seen: &Vec<String>, depth: &Vec<usize>, parent: &Vec<usize>, t: usize, Ghost(ev): Ghost<Seq<EdgeV>>) -> (p: Vec<String>)
    requires
        bfs_ok(ev, seen.deep_view(), depth@, parent@),
        seen@.len() == seen.deep_view().len(),
        t < seen@.len(),
        parents_agree(ev, seen.deep_view(), depth@, parent@),
    ensures
        p.deep_view() == bfs_path(ev, seen.deep_view()[0], seen.deep_view()[t as int], depth@[t as int] as nat),
        p.deep_view().len() == depth@[t as int] + 1,
        is_walk(ev, false, p.deep_view()),
        p.deep_view()[0] == seen.deep_view()[0],
        p.deep_view().last() == seen.deep_view()[t as int],
{
    let ghost sv = seen.deep_view();
    let ghost dv = depth@;
    let ghost pv = parent@;
    let mut rev: Vec<String> = Vec::new();
    rev.push(copy_string(&seen[t]));
    let mut cur: usize = t;
    assert(rev.deep_view() =~= seq![sv[t as int]]);
    let ghost a0 = sv[0];
    let ghost full = bfs_path(ev, a0, sv[t as int], dv[t as int] as nat);
    proof {
        lemma_bfs_path(ev, a0, sv[t as int], dv[t as int] as nat);
        assert(full.take(dv[t as int] + 1) =~= full);
    }
    while cur != 0
        invariant
            bfs_ok(ev, sv, dv, pv),
            sv == seen.deep_view(),
            dv == depth@,
            pv == parent@,
            seen@.len() == sv.len(),
            t < sv.len(),
            cur < sv.len(),
            dv[cur as int] <= dv[t as int],
            rev.deep_view().len() == dv[t as int] - dv[cur as int] + 1,
            rev.deep_view()[0] == sv[t as int],
            rev.deep_view().last() == sv[cur as int],
            forall|i: int| 0 <= i < rev.deep_view().len() - 1 ==> #[trigger] step(ev, false, rev.deep_view()[i + 1], rev.deep_view()[i]),
            parents_agree(ev, sv, dv, pv),
            a0 == sv[0],
            full == bfs_path(ev, a0, sv[t as int], dv[t as int] as nat),
            full.len() == dv[t as int] + 1,
            full.take(dv[cur as int] + 1) == bfs_path(ev, a0, sv[cur as int], dv[cur as int] as nat),
            forall|m: int| 0 <= m < rev.deep_view().len() ==> #[trigger] rev.deep_view()[m] == full[dv[t as int] - m],
        decreases cur,
    {
        let p = parent[cur];
        assert(pv[cur as int] < cur && dv[pv[cur as int] as int] + 1 == dv[cur as int] && step(ev, false, sv[pv[cur as int] as int], sv[cur as int]));
        let ghost before = rev.deep_view();
        rev.push(copy_string(&seen[p]));
        assert(rev.deep_view() =~= before.push(sv[p as int]));
        assert forall|i: int| 0 <= i < rev.deep_view().len() - 1 implies #[trigger] step(ev, false, rev.deep_view()[i + 1], rev.deep_view()[i]) by {
            if i < before.len() - 1 {
                assert(step(ev, false, before[i + 1], before[i]));
            }
        }
        proof {
            let c = cur as int;
            let q = p as int;
            assert(dv[c] > 0) by {
                if dv[c] == 0 {
                    assert(c == 0);
                }
            }
            assert(sv[q] == bfs_parent(ev, a0, sv[c], dv[c] as nat)) by {
                assert(sv[pv[c] as int] == bfs_parent(ev, sv[0], sv[c], dv[c] as nat));
            }
            lemma_bfs_path(ev, a0, sv[c], dv[c] as nat);
            lemma_bfs_path(ev, a0, sv[q], dv[q] as nat);
            assert((dv[c] - 1) as nat == dv[q] as nat);
            assert(full.take(dv[q] + 1) =~= full.take(dv[c] + 1).drop_last());
            assert(full[dv[q] as int] == full.take(dv[q] + 1)[dv[q] as int]);
            assert forall|m: int| 0 <= m < rev.deep_view().len() implies #[trigger] rev.deep_view()[m] == full[dv[t as int] - m] by {
                if m < before.len() {
                    assert(rev.deep_view()[m] == before[m]);
                }
            }
        }
        cur = p;
    }
    assert(dv[0] == 0);
    let ghost rv = rev.deep_view();
    let mut out: Vec<String> = Vec::new();
    let mut i: usize = rev.len();
    while i > 0
        invariant
            i <= rev@.len(),
            rv == rev.deep_view(),
            rev@.len() == rv.len(),
            out.deep_view().len() == rv.len() - i,
            forall|j: int| 0 <= j < out.deep_view().len() ==> #[trigger] out.deep_view()[j] == rv[rv.len() - 1 - j],
        decreases i,
    {
        let ghost before = out.deep_view();
        assert(rev.deep_view()[i - 1] == rev@[i - 1]@);
        out.push(copy_string(&rev[i - 1]));
        assert(out.deep_view() =~= before.push(rv[i - 1]));
        i = i - 1;
    }
    let ghost ov = out.deep_view();
    assert(ov.len() == rv.len());
    assert forall|j: int| 0 <= j < ov.len() - 1 implies #[trigger] step(ev, false, ov[j], ov[j + 1]) by {
        let m = rv.len() - 2 - j;
        assert(ov[j] == rv[m + 1]);
        assert(ov[j + 1] == rv[m]);
        assert(step(ev, false, rv[m + 1], rv[m]));
    }
    assert(ov[0] == rv[rv.len() - 1]);
    assert(ov.last() == rv[0]);
    assert(ov =~= full) by {
        assert forall|j: int| 0 <= j < ov.len() implies ov[j] == full[j] by {
            assert(ov[j] == rv[rv.len() - 1 - j]);
        }
    }
    out
}

/// The position of the first node with the id, if any.
pub open spec fn first_with_id(nodes: Seq<NodeV>, id: Seq<char>) -> Option<int>
    decreases nodes.len(),
{
    if nodes.len() == 0 {
        None
    } else {
        match first_with_id(nodes.drop_last(), id) {
            Some(i) => Some(i),
            None => if nodes.last().id == id { Some(nodes.len() - 1) } else { None },
        }
    }
}

/// For each id of the path, the first node with that id, where there is one.
pub open spec fn path_nodes(nodes: Seq<NodeV>, ids: Seq<Seq<char>>) -> Seq<NodeV>
    decreases ids.len(),
{
    if ids.len() == 0 {
        seq![]
    } else {
        path_nodes(nodes, ids.drop_last()) + match first_with_id(nodes, ids.last()) {
            Some(i) => seq![nodes[i]],
            None => seq![],
        }
    }
}

proof fn lemma_first_with_id(nodes: Seq<NodeV>, id: Seq<char>)
    ensures
        first_with_id(nodes, id) matches Some(i) ==> 0 <= i < nodes.len() && nodes[i].id == id
            && forall|j: int| 0 <= j < i ==> #[trigger] nodes[j].id != id,
        first_with_id(nodes, id) is None ==> forall|j: int| 0 <= j < nodes.len() ==> #[trigger] nodes[j].id != id,
    decreases nodes.len(),
{
    if nodes.len() > 0 {
        lemma_first_with_id(nodes.drop_last(), id);
        assert forall|j: int| 0 <= j < nodes.len() - 1 implies nodes[j] == nodes.drop_last()[j] by {}
    }
}

fn first_node_with_id(nodes: &Vec<Node>, id: &String) -> (r: Option<usize>)
    ensures
        match r {
            Some(i) => first_with_id(nodes_v(nodes@), id@) == Some(i as int) && i < nodes@.len(),
            None => first_with_id(nodes_v(nodes@), id@) is None,
        },
{
    let ghost nv = nodes_v(nodes@);
    proof {
        lemma_first_with_id(nv, id@);
    }
    let mut i: usize = 0;
    while i < nodes.len()
        invariant
            i <= nodes@.len(),
            nv == nodes_v(nodes@),
            forall|j: int| 0 <= j < i ==> #[trigger] nv[j].id != id@,
            first_with_id(nv, id@) matches Some(k) ==> 0 <= k < nv.len() && nv[k].id == id@
                && forall|j: int| 0 <= j < k ==> #[trigger] nv[j].id != id@,
            first_with_id(nv, id@) is None ==> forall|j: int| 0 <= j < nv.len() ==> #[trigger] nv[j].id != id@,
        decreases nodes@.len() - i,
    {
        assert(nv[i as int] == nodes@[i as int]@);
        if same_text(&nodes[i].id, id) {
            proof {
                match first_with_id(nv, id@) {
                    Some(k) => {
                        if k < i {
                            assert(nv[k].id != id@);
                        } else if k > i {
                            assert(nv[i as int].id != id@);
                        }
                    },
                    None => {
                        assert(nv[i as int].id != id@);
                    },
                }
            }
            return Some(i);
        }
        i = i + 1;
    }
    None
}

/// Explains how one node leads to another: the nodes along the path that breadth-first
/// search finds (a shortest one, see `shortest_path_ids`) between the first nodes answering
/// to the two names; none where either name answers to no node or no path leads from one to
/// the other.
pub fn explain_path(graph: &CodeGraph, from_name: &str, to_name: &str) -> (r: Option<Vec<Node>>)
    ensures
        match (find_named(graph.nv(), from_name@), find_named(graph.nv(), to_name@)) {
            (Some(f), Some(t)) => {
                &&& (r is Some <==> reaches(graph.ev(), false, graph.nv()[f].id, graph.nv()[t].id))
                &&& (r matches Some(ns) ==> {
                    let route = bfs_route(graph.ev(), graph.nv()[f].id, graph.nv()[t].id);
                    &&& shortest_path(graph.ev(), graph.nv()[f].id, graph.nv()[t].id, route)
                    &&& nodes_v(ns@) == path_nodes(graph.nv(), route)
                })
            },
            _ => r is None,
        },
{
    let f = match find_node(graph, from_name) {
        Some(i) => i,
        None => {
            return None;
        },
    };
    let t = match find_node(graph, to_name) {
        Some(i) => i,
        None => {
            return None;
        },
    };
    assert(graph.nv()[f as int] == graph.nodes@[f as int]@);
    assert(graph.nv()[t as int] == graph.nodes@[t as int]@);
    match shortest_path_ids(&graph.edges, &graph.nodes[f].id, &graph.nodes[t].id) {
        Some(p) => {
            let ghost pv = p.deep_view();
            let mut ns: Vec<Node> = Vec::new();
            let mut i: usize = 0;
            while i < p.len()
                invariant
                    i <= p@.len(),
                    pv == p.deep_view(),
                    p@.len() == pv.len(),
                    nodes_v(ns@) == path_nodes(graph.nv(), pv.take(i as int)),
                decreases p@.len() - i,
            {
                assert(pv.take(i + 1).drop_last() =~= pv.take(i as int));
                assert(pv.take(i + 1).last() == p@[i as int]@);
                match first_node_with_id(&graph.nodes, &p[i]) {
                    Some(k) => {
                        assert(graph.nv()[k as int] == graph.nodes@[k as int]@);
                        let ghost before = nodes_v(ns@);
                        ns.push(graph.nodes[k].dup());
                        assert(nodes_v(ns@) =~= before.push(graph.nv()[k as int]));
                    },
                    None => {},
                }
                i = i + 1;
                assert(nodes_v(ns@) =~= path_nodes(graph.nv(), pv.take(i as int)));
            }
            assert(pv.take(i as int) =~= pv);
            assert(shortest_path(graph.ev(), graph.nv()[f as int].id, graph.nv()[t as int].id, pv));
            Some(ns)
        },
        None => None,
    }
}

} // verus!
