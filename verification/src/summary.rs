//! A summary of a graph: its size, files, entry points, most imported modules and cycles.

use vstd::prelude::*;
use crate::ir::{CodeGraph, EdgeKind, EdgeV, GraphStats, Node, NodeKind, NodeV, edges_v, nodes_v};
use crate::order::{join, join_texts, lex_le, lex_le_exec, sort_texts, sorted};
use crate::prune::node_ids;
use crate::reach::{IdGraph, build_id_graph, distinct, explore, ids_at, index_of, lemma_ireached_iff, reach_in, reached_from, reaches};
use crate::text::{copy_string, decimal, push_decimal, push_str, same_text, to_owned_string};

verus! {

/// The file paths of the nodes.
pub open spec fn file_paths(nodes: Seq<NodeV>) -> Set<Seq<char>> {
    Set::new(|p: Seq<char>| exists|k: int| 0 <= k < nodes.len() && #[trigger] nodes[k].file_path == p)
}

/// The number of distinct file paths among the nodes.
pub fn count_files(nodes: &Vec<Node>) -> (r: usize)
    ensures
        r == file_paths(nodes_v(nodes@)).len(),
{
    let ghost nv = nodes_v(nodes@);
    let mut seen: Vec<String> = Vec::new();
    let mut i: usize = 0;
    while i < nodes.len()
        invariant
            nv == nodes_v(nodes@),
            i <= nv.len(),
            seen.deep_view().no_duplicates(),
            seen@.len() <= i,
            forall|p: Seq<char>| seen.deep_view().contains(p) <==> exists|k: int| 0 <= k < i && #[trigger] nv[k].file_path == p,
        decreases nv.len() - i,
    {
        assert(nv[i as int] == nodes@[i as int]@);
        let p = &nodes[i].file_path;
        let mut found = false;
        let mut j: usize = 0;
        while j < seen.len()
            invariant
                j <= seen@.len(),
                found ==> seen.deep_view().contains(p@),
                !found ==> forall|j2: int| 0 <= j2 < j ==> seen.deep_view()[j2] != p@,
            decreases seen@.len() - j,
        {
            if same_text(&seen[j], p) {
                assert(seen.deep_view()[j as int] == p@);
                found = true;
            }
            j = j + 1;
        }
        let ghost s0 = seen.deep_view();
        if !found {
            seen.push(copy_string(p));
            assert(seen.deep_view() =~= s0.push(p@));
        }
        assert forall|p2: Seq<char>| seen.deep_view().contains(p2) <==> exists|k: int| 0 <= k < i + 1 && #[trigger] nv[k].file_path == p2 by {
            if seen.deep_view().contains(p2) && !s0.contains(p2) {
                assert(p2 == p@);
                assert(nv[i as int].file_path == p2);
            }
            if exists|k: int| 0 <= k < i + 1 && #[trigger] nv[k].file_path == p2 {
                let k = choose|k: int| 0 <= k < i + 1 && #[trigger] nv[k].file_path == p2;
                if k == i {
                    if found {
                        assert(s0.contains(p2));
                    } else {
                        assert(seen.deep_view()[s0.len() as int] == p2);
                    }
                } else {
                    assert(s0.contains(p2));
                    let a = choose|a: int| 0 <= a < s0.len() && s0[a] == p2;
                    assert(seen.deep_view()[a] == p2);
                }
            }
        }
        i = i + 1;
    }
    proof {
        seen.deep_view().unique_seq_to_set();
        assert(seen.deep_view().to_set() =~= file_paths(nv));
    }
    seen.len()
}

/// Whether a `Calls` edge leads to the id.
pub open spec fn called(edges: Seq<EdgeV>, id: Seq<char>) -> bool {
    exists|i: int| 0 <= i < edges.len() && #[trigger] edges[i].to == id && edges[i].kind == EdgeKind::Calls
}

/// The entry points: functions that nothing calls.
pub open spec fn is_entry(edges: Seq<EdgeV>) -> spec_fn(NodeV) -> bool {
    |n: NodeV| n.kind is Function && !called(edges, n.id)
}

/// The labels of the entry points, in node order.
pub open spec fn entry_labels(nodes: Seq<NodeV>, edges: Seq<EdgeV>) -> Seq<Seq<char>> {
    nodes.filter(is_entry(edges)).map_values(|n: NodeV| n.label)
}


/// Whether the node at position `j` is a function labelled `label` that no `Calls` edge
/// leads to.
pub open spec fn uncalled_function(nodes: Seq<NodeV>, edges: Seq<EdgeV>, j: int, label: Seq<char>) -> bool {
    &&& 0 <= j < nodes.len()
    &&& nodes[j].label == label
    &&& nodes[j].kind is Function
    &&& forall|k: int| 0 <= k < edges.len() ==> !(#[trigger] edges[k].to == nodes[j].id && edges[k].kind == EdgeKind::Calls)
}

/// Every entry point that `summarize` lists (the `i`-th of labels that hold the same as
/// `entry_labels`, in any order) is the label of a function node of the graph that no `Calls` edge leads
/// to; classes, modules and files are never entry points, nor is a function something calls.
pub proof fn lemma_entry_points_are_uncalled_functions(nodes: Seq<NodeV>, edges: Seq<EdgeV>, labels: Seq<Seq<char>>,
    i: int)
    requires
        labels.to_multiset() == entry_labels(nodes, edges).to_multiset(),
        0 <= i < labels.len(),
    ensures
        exists|j: int| uncalled_function(nodes, edges, j, labels[i]),
{
    let j = lemma_entry_point_one(nodes, edges, labels, i);
    assert(uncalled_function(nodes, edges, j, labels[i]));
}


/// Every function that no `Calls` edge leads to is an entry point: its label is among the
/// labels that `summarize` lists (labels holding the same as `entry_labels`).
pub proof fn lemma_uncalled_functions_are_entry_points(nodes: Seq<NodeV>, edges: Seq<EdgeV>, labels: Seq<Seq<char>>,
    j: int)
    requires
        labels.to_multiset() == entry_labels(nodes, edges).to_multiset(),
        uncalled_function(nodes, edges, j, nodes[j].label),
    ensures
        labels.contains(nodes[j].label),
{
    let n = nodes[j];
    let f = nodes.filter(is_entry(edges));
    let el = entry_labels(nodes, edges);
    assert(!called(edges, n.id)) by {
        if called(edges, n.id) {
            let k = choose|k: int| 0 <= k < edges.len() && #[trigger] edges[k].to == n.id && edges[k].kind == EdgeKind::Calls;
            assert(!(edges[k].to == nodes[j].id && edges[k].kind == EdgeKind::Calls));
        }
    }
    assert(is_entry(edges)(n));
    nodes.lemma_filter_contains(is_entry(edges), j);
    let m = choose|m: int| 0 <= m < f.len() && f[m] == n;
    assert(el[m] == n.label);
    assert(el.contains(n.label));
    vstd::seq_lib::to_multiset_contains(el, n.label);
    vstd::seq_lib::to_multiset_contains(labels, n.label);
}

proof fn lemma_entry_point_one(nodes: Seq<NodeV>, edges: Seq<EdgeV>, labels: Seq<Seq<char>>, i: int) -> (j: int)
    requires
        labels.to_multiset() == entry_labels(nodes, edges).to_multiset(),
        0 <= i < labels.len(),
    ensures
        uncalled_function(nodes, edges, j, labels[i]),
{
    let f = nodes.filter(is_entry(edges));
    let el = entry_labels(nodes, edges);
    let x = labels[i];
    assert(labels.contains(x));
    vstd::seq_lib::to_multiset_contains(labels, x);
    vstd::seq_lib::to_multiset_contains(el, x);
    assert(el.contains(x));
    let m = choose|m: int| 0 <= m < el.len() && el[m] == x;
    let n = f[m];
    assert(el[m] == n.label);
    nodes.lemma_filter_pred(is_entry(edges), m);
    assert(f.contains(n));
    nodes.lemma_filter_contains_rev(is_entry(edges), n);
    let j = choose|j: int| 0 <= j < nodes.len() && nodes[j] == n;
    assert(is_entry(edges)(n));
    assert forall|k: int| 0 <= k < edges.len() implies !(#[trigger] edges[k].to == nodes[j].id && edges[k].kind == EdgeKind::Calls) by {
        if edges[k].to == nodes[j].id && edges[k].kind == EdgeKind::Calls {
            assert(called(edges, n.id));
        }
    }
    j
}

fn is_called(edges: &Vec<crate::ir::Edge>, id: &String) -> (r: bool)
    ensures
        r == called(edges_v(edges@), id@),
{
    let ghost ev = edges_v(edges@);
    let mut i: usize = 0;
    while i < edges.len()
        invariant
            ev == edges_v(edges@),
            i <= ev.len(),
            forall|i2: int| 0 <= i2 < i ==> !(#[trigger] ev[i2].to == id@ && ev[i2].kind == EdgeKind::Calls),
        decreases ev.len() - i,
    {
        assert(ev[i as int] == edges@[i as int]@);
        if edges[i].kind == EdgeKind::Calls && same_text(&edges[i].to_id, id) {
            assert(ev[i as int].to == id@ && ev[i as int].kind == EdgeKind::Calls);
            return true;
        }
        i = i + 1;
    }
    false
}

/// The labels of the entry points, in node order.
fn entry_point_labels(graph: &CodeGraph) -> (r: Vec<String>)
    ensures
        r.deep_view() == entry_labels(graph.nv(), graph.ev()),
{
    let ghost nv = graph.nv();
    let ghost ev = graph.ev();
    let mut r: Vec<String> = Vec::new();
    let mut i: usize = 0;
    while i < graph.nodes.len()
        invariant
            nv == graph.nv(),
            ev == graph.ev(),
            i <= nv.len(),
            r.deep_view() == nv.take(i as int).filter(is_entry(ev)).map_values(|n: NodeV| n.label),
        decreases nv.len() - i,
    {
        assert(nv[i as int] == graph.nodes@[i as int]@);
        let n = &graph.nodes[i];
        let is_fn = match n.kind {
            NodeKind::Function { .. } => true,
            _ => false,
        };
        let ghost r0 = r.deep_view();
        if is_fn && !is_called(&graph.edges, &n.id) {
            r.push(copy_string(&n.label));
        }
        proof {
            let t0 = nv.take(i as int);
            let t1 = nv.take(i + 1);
            assert(t1.drop_last() =~= t0);
            assert(t1.last() == nv[i as int]);
            reveal(Seq::filter);
            let f0 = t0.filter(is_entry(ev));
            if is_entry(ev)(nv[i as int]) {
                assert(t1.filter(is_entry(ev)) == f0.push(nv[i as int]));
                assert(f0.push(nv[i as int]).map_values(|n: NodeV| n.label) =~= f0.map_values(|n: NodeV| n.label).push(nv[i as int].label));
            } else {
                assert(t1.filter(is_entry(ev)) == f0);
            }
            assert(r.deep_view() =~= t1.filter(is_entry(ev)).map_values(|n: NodeV| n.label));
        }
        i = i + 1;
    }
    assert(nv.take(nv.len() as int) =~= nv);
    r
}

/// How the entry points read in the summary: "None", or the first ten, followed by "..."
/// where there are more, separated by commas.
pub open spec fn entry_text(sorted_labels: Seq<Seq<char>>) -> Seq<char> {
    if sorted_labels.len() == 0 {
        "None"@
    } else if sorted_labels.len() > 10 {
        join(sorted_labels.take(10).push("..."@), ", "@)
    } else {
        join(sorted_labels, ", "@)
    }
}

/// The number of `Imports` edges that lead to the id.
pub open spec fn import_count(edges: Seq<EdgeV>, id: Seq<char>) -> nat
    decreases edges.len(),
{
    if edges.len() == 0 {
        0
    } else {
        import_count(edges.drop_last(), id)
            + if edges.last().kind == EdgeKind::Imports && edges.last().to == id { 1nat } else { 0nat }
    }
}

/// The ids that `Imports` edges lead to, each once, in order of first appearance.
pub open spec fn import_targets(edges: Seq<EdgeV>) -> Seq<Seq<char>>
    decreases edges.len(),
{
    if edges.len() == 0 {
        seq![]
    } else {
        let prev = import_targets(edges.drop_last());
        let e = edges.last();
        if e.kind == EdgeKind::Imports && !prev.contains(e.to) { prev.push(e.to) } else { prev }
    }
}

/// The label of the last node with the id.
pub open spec fn last_label(nodes: Seq<NodeV>, id: Seq<char>) -> Option<Seq<char>>
    decreases nodes.len(),
{
    if nodes.len() == 0 {
        None
    } else if nodes.last().id == id {
        Some(nodes.last().label)
    } else {
        last_label(nodes.drop_last(), id)
    }
}

/// The label of the first node with the id.
pub open spec fn first_label(nodes: Seq<NodeV>, id: Seq<char>) -> Option<Seq<char>>
    decreases nodes.len(),
{
    if nodes.len() == 0 {
        None
    } else {
        match first_label(nodes.drop_last(), id) {
            Some(l) => Some(l),
            None => if nodes.last().id == id { Some(nodes.last().label) } else { None },
        }
    }
}

/// Whether label `a` sorts strictly before `b`; a missing label first.
pub open spec fn label_before(a: Option<Seq<char>>, b: Option<Seq<char>>) -> bool {
    match (a, b) {
        (None, Some(_)) => true,
        (Some(x), Some(y)) => lex_le(x, y) && x != y,
        _ => false,
    }
}

/// Whether module `a` ranks above `b`: more imports, or as many and a label before.
pub open spec fn ranks_above(nodes: Seq<NodeV>, edges: Seq<EdgeV>, a: Seq<char>, b: Seq<char>) -> bool {
    import_count(edges, a) > import_count(edges, b)
        || (import_count(edges, a) == import_count(edges, b) && label_before(last_label(nodes, a), last_label(nodes, b)))
}

/// The position of the highest-ranked module, the first among equals.
pub open spec fn best_index(nodes: Seq<NodeV>, edges: Seq<EdgeV>, s: Seq<Seq<char>>) -> int
    decreases s.len(),
{
    if s.len() <= 1 {
        0
    } else {
        let b = best_index(nodes, edges, s.drop_last());
        if ranks_above(nodes, edges, s.last(), s[b]) { s.len() - 1 } else { b }
    }
}

/// The `k` highest-ranked modules, best first.
pub open spec fn top_ids(nodes: Seq<NodeV>, edges: Seq<EdgeV>, s: Seq<Seq<char>>, k: nat) -> Seq<Seq<char>>
    decreases k,
{
    if k == 0 || s.len() == 0 {
        seq![]
    } else {
        let b = best_index(nodes, edges, s);
        seq![s[b]] + top_ids(nodes, edges, s.remove(b), (k - 1) as nat)
    }
}

/// The labels of the given ids that name a node (that of its first node), in order.
pub open spec fn node_labels(nodes: Seq<NodeV>, ids: Seq<Seq<char>>) -> Seq<Seq<char>>
    decreases ids.len(),
{
    if ids.len() == 0 {
        seq![]
    } else {
        node_labels(nodes, ids.drop_last()) + match first_label(nodes, ids.last()) {
            Some(l) => seq![l],
            None => seq![],
        }
    }
}

/// The labels of the five most imported modules, most imported first.
pub open spec fn top_modules(nodes: Seq<NodeV>, edges: Seq<EdgeV>) -> Seq<Seq<char>> {
    node_labels(nodes, top_ids(nodes, edges, import_targets(edges), 5))
}

proof fn lemma_best_index(nodes: Seq<NodeV>, edges: Seq<EdgeV>, s: Seq<Seq<char>>)
    requires
        s.len() > 0,
    ensures
        0 <= best_index(nodes, edges, s) < s.len(),
    decreases s.len(),
{
    if s.len() > 1 {
        lemma_best_index(nodes, edges, s.drop_last());
    }
}

fn import_count_exec(edges: &Vec<crate::ir::Edge>, id: &String) -> (r: usize)
    ensures
        r == import_count(edges_v(edges@), id@),
{
    let ghost ev = edges_v(edges@);
    let mut c: usize = 0;
    let mut i: usize = 0;
    while i < edges.len()
        invariant
            ev == edges_v(edges@),
            i <= ev.len(),
            c == import_count(ev.take(i as int), id@),
            c <= i,
        decreases ev.len() - i,
    {
        assert(ev[i as int] == edges@[i as int]@);
        assert(ev.take(i + 1).drop_last() =~= ev.take(i as int));
        if edges[i].kind == EdgeKind::Imports && same_text(&edges[i].to_id, id) {
            c = c + 1;
        }
        i = i + 1;
    }
    assert(ev.take(ev.len() as int) =~= ev);
    c
}

fn import_targets_exec(edges: &Vec<crate::ir::Edge>) -> (r: Vec<String>)
    ensures
        r.deep_view() == import_targets(edges_v(edges@)),
{
    let ghost ev = edges_v(edges@);
    let mut r: Vec<String> = Vec::new();
    let mut i: usize = 0;
    while i < edges.len()
        invariant
            ev == edges_v(edges@),
            i <= ev.len(),
            r.deep_view() == import_targets(ev.take(i as int)),
        decreases ev.len() - i,
    {
        assert(ev[i as int] == edges@[i as int]@);
        assert(ev.take(i + 1).drop_last() =~= ev.take(i as int));
        if edges[i].kind == EdgeKind::Imports {
            let mut found = false;
            let mut j: usize = 0;
            while j < r.len()
                invariant
                    i < edges@.len(),
                    j <= r@.len(),
                    found == exists|j2: int| 0 <= j2 < j && #[trigger] r.deep_view()[j2] == edges@[i as int].to_id@,
                decreases r@.len() - j,
            {
                assert(r.deep_view()[j as int] == r@[j as int]@);
                if same_text(&r[j], &edges[i].to_id) {
                    found = true;
                }
                j = j + 1;
            }
            let ghost r0 = r.deep_view();
            if !found {
                r.push(copy_string(&edges[i].to_id));
                assert(r.deep_view() =~= r0.push(edges@[i as int].to_id@));
            }
        }
        i = i + 1;
        assert(r.deep_view() =~= import_targets(ev.take(i as int)));
    }
    assert(ev.take(ev.len() as int) =~= ev);
    r
}

fn last_label_exec(nodes: &Vec<Node>, id: &String) -> (r: Option<String>)
    ensures
        match r { Some(l) => last_label(nodes_v(nodes@), id@) == Some(l@), None => last_label(nodes_v(nodes@), id@) is None },
{
    let ghost nv = nodes_v(nodes@);
    let mut i: usize = nodes.len();
    assert(nv.take(i as int) =~= nv);
    while i > 0
        invariant
            nv == nodes_v(nodes@),
            i <= nv.len(),
            last_label(nv, id@) == last_label(nv.take(i as int), id@),
        decreases i,
    {
        assert(nv[i - 1] == nodes@[i - 1]@);
        assert(nv.take(i as int).drop_last() =~= nv.take(i - 1));
        if same_text(&nodes[i - 1].id, id) {
            return Some(copy_string(&nodes[i - 1].label));
        }
        i = i - 1;
    }
    None
}

fn first_label_exec(nodes: &Vec<Node>, id: &String) -> (r: Option<String>)
    ensures
        match r { Some(l) => first_label(nodes_v(nodes@), id@) == Some(l@), None => first_label(nodes_v(nodes@), id@) is None },
{
    let ghost nv = nodes_v(nodes@);
    let mut i: usize = 0;
    while i < nodes.len()
        invariant
            nv == nodes_v(nodes@),
            i <= nv.len(),
            first_label(nv.take(i as int), id@) is None,
        decreases nv.len() - i,
    {
        assert(nv[i as int] == nodes@[i as int]@);
        assert(nv.take(i + 1).drop_last() =~= nv.take(i as int));
        if same_text(&nodes[i].id, id) {
            proof {
                lemma_first_label_prefix(nv, id@, i + 1);
            }
            return Some(copy_string(&nodes[i].label));
        }
        i = i + 1;
    }
    assert(nv.take(nv.len() as int) =~= nv);
    None
}

proof fn lemma_first_label_prefix(nv: Seq<NodeV>, id: Seq<char>, k: int)
    requires
        0 <= k <= nv.len(),
        first_label(nv.take(k), id) is Some,
    ensures
        first_label(nv, id) == first_label(nv.take(k), id),
    decreases nv.len() - k,
{
    if k < nv.len() {
        assert(nv.take(k + 1).drop_last() =~= nv.take(k));
        lemma_first_label_prefix(nv, id, k + 1);
    } else {
        assert(nv.take(k) =~= nv);
    }
}

fn ranks_above_exec(ca: usize, la: &Option<String>, cb: usize, lb: &Option<String>) -> (r: bool)
    ensures
        r == (ca > cb || (ca == cb && label_before(opt_chars(*la), opt_chars(*lb)))),
{
    if ca > cb {
        return true;
    }
    if ca < cb {
        return false;
    }
    match (la, lb) {
        (None, Some(_)) => true,
        (Some(x), Some(y)) => lex_le_exec(x, y) && !same_text(x, y),
        _ => false,
    }
}

/// The characters of an optional text.
pub open spec fn opt_chars(o: Option<String>) -> Option<Seq<char>> {
    match o {
        Some(s) => Some(s@),
        None => None,
    }
}

/// The labels of the five most imported modules, most imported first.
fn top_module_labels(graph: &CodeGraph) -> (r: Vec<String>)
    ensures
        r.deep_view() == top_modules(graph.nv(), graph.ev()),
{
    let ghost nv = graph.nv();
    let ghost ev = graph.ev();
    let mut rem = import_targets_exec(&graph.edges);
    let mut counts: Vec<usize> = Vec::new();
    let mut labels: Vec<Option<String>> = Vec::new();
    let mut i: usize = 0;
    while i < rem.len()
        invariant
            nv == graph.nv(),
            ev == graph.ev(),
            i <= rem@.len(),
            counts@.len() == i,
            labels@.len() == i,
            forall|k: int| 0 <= k < i ==> #[trigger] counts@[k] == import_count(ev, rem.deep_view()[k]),
            forall|k: int| 0 <= k < i ==> opt_chars(#[trigger] labels@[k]) == last_label(nv, rem.deep_view()[k]),
        decreases rem@.len() - i,
    {
        counts.push(import_count_exec(&graph.edges, &rem[i]));
        labels.push(last_label_exec(&graph.nodes, &rem[i]));
        i = i + 1;
    }
    let ghost full = rem.deep_view();
    let mut picked: Vec<String> = Vec::new();
    let mut round: usize = 0;
    while round < 5 && rem.len() > 0
        invariant
            nv == graph.nv(),
            ev == graph.ev(),
            round <= 5,
            counts@.len() == rem@.len(),
            labels@.len() == rem@.len(),
            forall|k: int| 0 <= k < rem@.len() ==> #[trigger] counts@[k] == import_count(ev, rem.deep_view()[k]),
            forall|k: int| 0 <= k < rem@.len() ==> opt_chars(#[trigger] labels@[k]) == last_label(nv, rem.deep_view()[k]),
            picked.deep_view() + top_ids(nv, ev, rem.deep_view(), (5 - round) as nat) == top_ids(nv, ev, full, 5),
        decreases 5 - round,
    {
        let ghost s = rem.deep_view();
        let mut b: usize = 0;
        let mut k: usize = 1;
        while k < rem.len()
            invariant
                counts@.len() == rem@.len(),
                labels@.len() == rem@.len(),
                s == rem.deep_view(),
                forall|k2: int| 0 <= k2 < rem@.len() ==> #[trigger] counts@[k2] == import_count(ev, s[k2]),
                forall|k2: int| 0 <= k2 < rem@.len() ==> opt_chars(#[trigger] labels@[k2]) == last_label(nv, s[k2]),
                1 <= k <= rem@.len(),
                b == best_index(nv, ev, s.take(k as int)),
            decreases rem@.len() - k,
        {
            assert(s.take(k + 1).drop_last() =~= s.take(k as int));
            proof {
                lemma_best_index(nv, ev, s.take(k as int));
            }
            assert(s.take(k + 1)[b as int] == s[b as int]);
            if ranks_above_exec(counts[k], &labels[k], counts[b], &labels[b]) {
                b = k;
            }
            k = k + 1;
        }
        assert(s.take(s.len() as int) =~= s);
        proof {
            lemma_best_index(nv, ev, s);
        }
        let id = rem.remove(b);
        counts.remove(b);
        labels.remove(b);
        assert(rem.deep_view() =~= s.remove(b as int)) by {
            assert forall|j: int| 0 <= j < rem.deep_view().len() implies rem.deep_view()[j] == s.remove(b as int)[j] by {
                if j < b {
                    assert(rem.deep_view()[j] == s[j]);
                } else {
                    assert(rem.deep_view()[j] == s[j + 1]);
                }
            }
        }
        let ghost p0 = picked.deep_view();
        picked.push(id);
        assert(picked.deep_view() =~= p0.push(s[b as int]));
        assert(top_ids(nv, ev, s, (5 - round) as nat) == seq![s[b as int]] + top_ids(nv, ev, s.remove(b as int), (5 - round - 1) as nat));
        assert(picked.deep_view() + top_ids(nv, ev, rem.deep_view(), (5 - (round + 1)) as nat)
            =~= p0 + top_ids(nv, ev, s, (5 - round) as nat));
        round = round + 1;
    }
    assert(top_ids(nv, ev, rem.deep_view(), (5 - round) as nat) =~= Seq::<Seq<char>>::empty());
    assert(picked.deep_view() =~= top_ids(nv, ev, full, 5));
    let mut r: Vec<String> = Vec::new();
    let mut j: usize = 0;
    while j < picked.len()
        invariant
            nv == graph.nv(),
            j <= picked@.len(),
            r.deep_view() == node_labels(nv, picked.deep_view().take(j as int)),
        decreases picked@.len() - j,
    {
        assert(picked.deep_view().take(j + 1).drop_last() =~= picked.deep_view().take(j as int));
        let ghost r0 = r.deep_view();
        match first_label_exec(&graph.nodes, &picked[j]) {
            Some(l) => {
                r.push(l);
                assert(r.deep_view() =~= r0.push(l@));
            },
            None => {},
        }
        j = j + 1;
        assert(r.deep_view() =~= node_labels(nv, picked.deep_view().take(j as int)));
    }
    assert(picked.deep_view().take(picked@.len() as int) =~= picked.deep_view());
    r
}

/// Whether `x` and `y` reach each other.
pub open spec fn mutual(edges: Seq<EdgeV>, x: Seq<char>, y: Seq<char>) -> bool {
    reaches(edges, false, x, y) && reaches(edges, false, y, x)
}

/// The ids of the nodes.
pub open spec fn node_id_seq(nodes: Seq<NodeV>) -> Seq<Seq<char>> {
    nodes.map_values(|n: NodeV| n.id)
}

/// Whether `x` stands for a cycle: it is reached from a node, it shares a strongly
/// connected component with some other id, and it comes first of that component.
pub open spec fn cycle_leader(nodes: Seq<NodeV>, edges: Seq<EdgeV>, x: Seq<char>) -> bool {
    &&& reached_from(edges, false, node_id_seq(nodes), x, None)
    &&& exists|y: Seq<char>| y != x && #[trigger] mutual(edges, x, y)
    &&& forall|y: Seq<char>| #[trigger] mutual(edges, x, y) ==> lex_le(x, y)
}

/// The number of strongly connected components of more than one id that the nodes reach.
pub open spec fn cycle_count(nodes: Seq<NodeV>, edges: Seq<EdgeV>) -> nat {
    Set::new(|x: Seq<char>| cycle_leader(nodes, edges, x)).len()
}

proof fn lemma_single_root(edges: Seq<EdgeV>, x: Seq<char>, y: Seq<char>)
    ensures
        reached_from(edges, false, seq![x], y, None) <==> reaches(edges, false, x, y),
{
    if reached_from(edges, false, seq![x], y, None) {
        let (k, n) = choose|k: int, n: nat| 0 <= k < 1 && (None::<nat> is None || n <= 0) && #[trigger] reach_in(edges, false, seq![x][k], y, n);
        assert(reach_in(edges, false, x, y, n));
    }
    if reaches(edges, false, x, y) {
        let n = choose|n: nat| reach_in(edges, false, x, y, n);
        assert(reach_in(edges, false, seq![x][0], y, n));
    }
}

/// Marks, for each indexed id, the indexed ids it reaches.
fn reach_matrix(g: &IdGraph, Ghost(ev): Ghost<Seq<EdgeV>>) -> (m: Vec<Vec<bool>>)
    requires
        g.wf(ev, false),
    ensures
        m@.len() == g.idv().len(),
        forall|j: int| 0 <= j < g.idv().len() ==> (#[trigger] m@[j])@.len() == g.idv().len(),
        forall|j: int, k: int| 0 <= j < g.idv().len() && 0 <= k < g.idv().len() ==>
            (#[trigger] m@[j]@[k] <==> reaches(ev, false, g.idv()[j], g.idv()[k])),
{
    let n = g.ids.len();
    let ghost ids = g.idv();
    let mut m: Vec<Vec<bool>> = Vec::new();
    let mut j: usize = 0;
    while j < n
        invariant
            n == ids.len(),
            ids == g.idv(),
            g.wf(ev, false),
            j <= n,
            m@.len() == j,
            forall|j2: int| 0 <= j2 < j ==> (#[trigger] m@[j2])@.len() == n,
            forall|j2: int, k: int| 0 <= j2 < j && 0 <= k < n ==>
                (#[trigger] m@[j2]@[k] <==> reaches(ev, false, ids[j2], ids[k])),
        decreases n - j,
    {
        let mut src: Vec<usize> = Vec::new();
        src.push(j);
        let v = explore(&g.succ, &src);
        proof {
            lemma_ireached_iff(*g, ev, false, src@, None);
            assert(ids_at(ids, src@) =~= seq![ids[j as int]]);
            assert forall|k: int| 0 <= k < n implies (v@[k] <==> reaches(ev, false, ids[j as int], ids[k])) by {
                lemma_single_root(ev, ids[j as int], ids[k]);
            }
        }
        m.push(v);
        j = j + 1;
    }
    m
}

/// The number of strongly connected components of more than one id that the nodes reach.
fn count_cycles(graph: &CodeGraph) -> (r: usize)
    ensures
        r == cycle_count(graph.nv(), graph.ev()),
{
    let ghost nv = graph.nv();
    let ghost ev = graph.ev();
    let seeds = node_ids(&graph.nodes);
    let g = build_id_graph(&graph.edges, false, &seeds);
    let ghost ids = g.idv();
    let n = g.ids.len();
    assert(g.wf(ev, false));
    let mut roots: Vec<usize> = Vec::new();
    let mut k: usize = 0;
    while k < seeds.len()
        invariant
            ids == g.idv(),
            n == ids.len(),
            g.wf(ev, false),
            n == g.ids@.len(),
            n == g.succ@.len(),
            k <= seeds@.len(),
            seeds@.len() == nv.len(),
            forall|k2: int| 0 <= k2 < nv.len() ==> seeds.deep_view()[k2] == #[trigger] nv[k2].id,
            forall|k2: int| 0 <= k2 < seeds@.len() ==> ids.contains(seeds.deep_view()[k2]),
            roots@.len() == k,
            forall|t: int| 0 <= t < k ==> #[trigger] roots@[t] < n,
            forall|t: int| 0 <= t < k ==> ids[#[trigger] roots@[t] as int] == seeds.deep_view()[t],
        decreases seeds@.len() - k,
    {
        assert(ids.contains(seeds.deep_view()[k as int]));
        match index_of(&g.ids, &seeds[k]) {
            Some(r) => {
                let ghost r0 = roots@;
                assert(seeds.deep_view()[k as int] == seeds@[k as int]@);
                roots.push(r);
                assert forall|t: int| 0 <= t < k + 1 implies #[trigger] roots@[t] < n && ids[roots@[t] as int] == seeds.deep_view()[t] by {
                    if t < k {
                        assert(roots@[t] == r0[t]);
                    }
                }
            },
            None => {
                assert(false);
            },
        }
        k = k + 1;
    }
    assert(ids_at(ids, roots@) =~= node_id_seq(nv));
    let reached = explore(&g.succ, &roots);
    let m = reach_matrix(&g, Ghost(ev));
    proof {
        lemma_ireached_iff(g, ev, false, roots@, None);
    }
    let mut count: usize = 0;
    let ghost mut lead: Seq<Seq<char>> = Seq::empty();
    let mut j: usize = 0;
    while j < n
        invariant
            ids == g.idv(),
            n == ids.len(),
            g.wf(ev, false),
            distinct(ids),
            reached@.len() == n,
            forall|j2: int| 0 <= j2 < n ==> (reached@[j2] <==> #[trigger] reached_from(ev, false, node_id_seq(nv), ids[j2], None)),
            m@.len() == n,
            forall|j2: int| 0 <= j2 < n ==> (#[trigger] m@[j2])@.len() == n,
            forall|j2: int, k2: int| 0 <= j2 < n && 0 <= k2 < n ==>
                (#[trigger] m@[j2]@[k2] <==> reaches(ev, false, ids[j2], ids[k2])),
            j <= n,
            count == lead.len(),
            count <= j,
            lead.no_duplicates(),
            forall|x: Seq<char>| lead.contains(x) <==> exists|j2: int| 0 <= j2 < j && #[trigger] ids[j2] == x && cycle_leader(nv, ev, x),
        decreases n - j,
    {
        let mut nontrivial = false;
        let mut first = true;
        let mut k: usize = 0;
        while k < n
            invariant
                ids == g.idv(),
                n == ids.len(),
                j < n,
                m@.len() == n,
                forall|j2: int| 0 <= j2 < n ==> (#[trigger] m@[j2])@.len() == n,
                k <= n,
                nontrivial <==> exists|k2: int| 0 <= k2 < k && k2 != j && m@[j as int]@[k2] && #[trigger] m@[k2]@[j as int],
                first <==> forall|k2: int| 0 <= k2 < k && m@[j as int]@[k2] && #[trigger] m@[k2]@[j as int] ==> lex_le(ids[j as int], ids[k2]),
            decreases n - k,
        {
            if m[j][k] && m[k][j] {
                if k != j {
                    nontrivial = true;
                }
                if !lex_le_exec(&g.ids[j], &g.ids[k]) {
                    first = false;
                }
            }
            k = k + 1;
        }
        proof {
            let x = ids[j as int];
            assert forall|y: Seq<char>| #[trigger] mutual(ev, x, y) implies ids.contains(y) by {
                lemma_single_root(ev, x, y);
                let mut src = seq![j as usize];
                assert(ids_at(ids, src) =~= seq![x]);
                lemma_ireached_iff(g, ev, false, src, None);
            }
            let leader = reached@[j as int] && nontrivial && first;
            assert(leader == cycle_leader(nv, ev, x)) by {
                if nontrivial {
                    let k2 = choose|k2: int| 0 <= k2 < n && k2 != j && m@[j as int]@[k2] && #[trigger] m@[k2]@[j as int];
                    assert(mutual(ev, x, ids[k2]));
                    assert(ids[k2] != x);
                }
                if exists|y: Seq<char>| y != x && #[trigger] mutual(ev, x, y) {
                    let y = choose|y: Seq<char>| y != x && #[trigger] mutual(ev, x, y);
                    assert(ids.contains(y));
                    let k2 = choose|k2: int| 0 <= k2 < n && ids[k2] == y;
                    assert(m@[j as int]@[k2] && m@[k2]@[j as int]);
                }
                if first {
                    assert forall|y: Seq<char>| #[trigger] mutual(ev, x, y) implies lex_le(x, y) by {
                        assert(ids.contains(y));
                        let k2 = choose|k2: int| 0 <= k2 < n && ids[k2] == y;
                        assert(m@[j as int]@[k2] && m@[k2]@[j as int]);
                    }
                }
                if forall|y: Seq<char>| #[trigger] mutual(ev, x, y) ==> lex_le(x, y) {
                    assert forall|k2: int| 0 <= k2 < n && m@[j as int]@[k2] && #[trigger] m@[k2]@[j as int] implies lex_le(ids[j as int], ids[k2]) by {
                        assert(mutual(ev, x, ids[k2]));
                    }
                }
            }
        }
        if reached[j] && nontrivial && first {
            proof {
                let x = ids[j as int];
                let l0 = lead;
                assert(!l0.contains(x)) by {
                    if l0.contains(x) {
                        let j2 = choose|j2: int| 0 <= j2 < j && #[trigger] ids[j2] == x && cycle_leader(nv, ev, x);
                    }
                }
                lead = l0.push(x);
                assert forall|x2: Seq<char>| lead.contains(x2) <==> exists|j2: int| 0 <= j2 < j + 1 && #[trigger] ids[j2] == x2 && cycle_leader(nv, ev, x2) by {
                    if lead.contains(x2) && x2 != x {
                        let a = choose|a: int| 0 <= a < lead.len() && lead[a] == x2;
                        assert(a < l0.len());
                        assert(l0[a] == x2);
                        assert(l0.contains(x2));
                    }
                    if exists|j2: int| 0 <= j2 < j + 1 && #[trigger] ids[j2] == x2 && cycle_leader(nv, ev, x2) {
                        let j2 = choose|j2: int| 0 <= j2 < j + 1 && #[trigger] ids[j2] == x2 && cycle_leader(nv, ev, x2);
                        if j2 < j {
                            assert(l0.contains(x2));
                            let a = choose|a: int| 0 <= a < l0.len() && l0[a] == x2;
                            assert(lead[a] == x2);
                        } else {
                            assert(lead[lead.len() - 1] == x2);
                        }
                    }
                }
            }
            count = count + 1;
        } else {
            proof {
                assert forall|x2: Seq<char>| lead.contains(x2) <==> exists|j2: int| 0 <= j2 < j + 1 && #[trigger] ids[j2] == x2 && cycle_leader(nv, ev, x2) by {
                    if exists|j2: int| 0 <= j2 < j + 1 && #[trigger] ids[j2] == x2 && cycle_leader(nv, ev, x2) {
                        let j2 = choose|j2: int| 0 <= j2 < j + 1 && #[trigger] ids[j2] == x2 && cycle_leader(nv, ev, x2);
                        assert(j2 != j);
                    }
                }
            }
        }
        j = j + 1;
    }
    proof {
        assert forall|x: Seq<char>| #[trigger] cycle_leader(nv, ev, x) implies ids.contains(x) by {}
        assert(lead.to_set() =~= Set::new(|x: Seq<char>| cycle_leader(nv, ev, x))) by {
            assert forall|x: Seq<char>| #[trigger] cycle_leader(nv, ev, x) implies lead.contains(x) by {
                let j2 = choose|j2: int| 0 <= j2 < n && ids[j2] == x;
            }
        }
        lead.unique_seq_to_set();
    }
    count
}

/// The summary text of a graph.
pub open spec fn summary_text(language: Seq<char>, symbols: nat, files: nat, entries: Seq<char>, modules: Seq<char>,
    cycles: nat) -> Seq<char>
{
    "This is a "@ + language + " codebase with "@ + decimal(symbols) + " symbols across "@ + decimal(files)
        + " files.\n\nEntry points: "@ + entries + ".\nMost-imported modules: "@ + modules + "."@
        + if cycles > 0 { "\n⚠️ "@ + decimal(cycles) + " circular dependencies detected."@ } else { seq![] }
}

impl CodeGraph {
    /// Summarizes the graph: a text, and the statistics it is drawn from. The entry points
    /// are the functions that no call reaches, in order; the most imported modules the five
    /// with most `Imports` edges (then by label); the circular dependencies the strongly
    /// connected components of more than one id reached from the nodes.
    pub fn summarize(&self) -> (r: (String, GraphStats))
        ensures
            r.1.total_nodes == self.nodes@.len(),
            r.1.total_edges == self.edges@.len(),
            r.1.languages.deep_view() == seq![self.meta.language@],
            sorted(r.1.entry_points.deep_view()),
            r.1.entry_points.deep_view().to_multiset() == entry_labels(self.nv(), self.ev()).to_multiset(),
            r.1.top_modules.deep_view() == top_modules(self.nv(), self.ev()),
            r.1.circular_dep_count == cycle_count(self.nv(), self.ev()),
            r.0@ == summary_text(self.meta.language@, self.nodes@.len(), file_paths(self.nv()).len(),
                entry_text(r.1.entry_points.deep_view()),
                if r.1.top_modules@.len() == 0 { "None"@ } else { join(r.1.top_modules.deep_view(), ", "@) },
                r.1.circular_dep_count as nat),
    {
        let total_nodes = self.nodes.len();
        let total_edges = self.edges.len();
        let mut languages: Vec<String> = Vec::new();
        languages.push(copy_string(&self.meta.language));
        assert(languages.deep_view() =~= seq![self.meta.language@]);
        let file_count = count_files(&self.nodes);
        let entry_points = sort_texts(entry_point_labels(self));
        let ghost ep = entry_points.deep_view();
        let entries_str = if entry_points.len() == 0 {
            to_owned_string("None")
        } else if entry_points.len() > 10 {
            let mut shown: Vec<String> = Vec::new();
            let mut i: usize = 0;
            while i < 10
                invariant
                    ep == entry_points.deep_view(),
                    entry_points@.len() > 10,
                    i <= 10,
                    shown.deep_view() == ep.take(i as int),
                decreases 10 - i,
            {
                let ghost s0 = shown.deep_view();
                let c = copy_string(&entry_points[i]);
                assert(c@ == ep[i as int]);
                shown.push(c);
                assert(shown.deep_view() =~= s0.push(c@));
                assert(shown.deep_view() =~= ep.take(i + 1));
                i = i + 1;
            }
            let ghost s1 = shown.deep_view();
            shown.push(to_owned_string("..."));
            assert(shown.deep_view() =~= ep.take(10).push("..."@));
            join_texts(&shown, ", ")
        } else {
            join_texts(&entry_points, ", ")
        };
        let top = top_module_labels(self);
        let top_str = if top.len() == 0 {
            to_owned_string("None")
        } else {
            join_texts(&top, ", ")
        };
        let cycles = count_cycles(self);
        let mut summary = to_owned_string("This is a ");
        push_str(&mut summary, self.meta.language.as_str());
        push_str(&mut summary, " codebase with ");
        push_decimal(&mut summary, total_nodes);
        push_str(&mut summary, " symbols across ");
        push_decimal(&mut summary, file_count);
        push_str(&mut summary, " files.\n\nEntry points: ");
        push_str(&mut summary, entries_str.as_str());
        push_str(&mut summary, ".\nMost-imported modules: ");
        push_str(&mut summary, top_str.as_str());
        push_str(&mut summary, ".");
        if cycles > 0 {
            push_str(&mut summary, "\n⚠️ ");
            push_decimal(&mut summary, cycles);
            push_str(&mut summary, " circular dependencies detected.");
        }
        let stats = GraphStats {
            total_nodes,
            total_edges,
            languages,
            entry_points,
            top_modules: top,
            circular_dep_count: cycles,
        };
        assert(summary@ =~= summary_text(self.meta.language@, self.nodes@.len(), file_paths(self.nv()).len(),
            entry_text(stats.entry_points.deep_view()),
            if stats.top_modules@.len() == 0 { "None"@ } else { join(stats.top_modules.deep_view(), ", "@) },
            stats.circular_dep_count as nat));
        (summary, stats)
    }
}

} // verus!
