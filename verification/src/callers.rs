//! The tree of who calls a function, transitively, down to a depth: each caller once per
//! branch, so that a cycle ends the branch.

use vstd::prelude::*;
use crate::ir::{CodeGraph, EdgeKind, EdgeV};
use crate::paths::has_call_edge;
use crate::text::{copy_string, same_text, to_owned_string};

verus! {

/// A node of the callers tree: the node's id and the trees of its callers.
pub struct CallerTree {
    pub node: String,
    pub callers: Vec<CallerTree>,
}

/// Whether the tree is that of the callers of `id` at depth `d` of `max_depth`, none of the
/// ids on the branch (`path`) taken again.
pub open spec fn is_caller_tree(t: CallerTree, ev: Seq<EdgeV>, id: Seq<char>, max_depth: nat, d: nat, path: Seq<Seq<char>>) -> bool
    decreases max_depth - d, 1nat, 0nat,
{
    &&& t.node@ == id
    &&& if d >= max_depth {
        t.callers@.len() == 0
    } else {
        callers_match(t.callers@, ev, ev.len(), id, max_depth, d, path)
    }
}

/// Whether the trees are those of the callers of `id` by the first `k` edges, in order: each
/// `Calls` edge into `id` from an id not on the branch gives one.
pub open spec fn callers_match(ts: Seq<CallerTree>, ev: Seq<EdgeV>, k: nat, id: Seq<char>, max_depth: nat, d: nat,
    path: Seq<Seq<char>>) -> bool
    decreases max_depth - d, 0nat, k,
{
    if d >= max_depth || k > ev.len() {
        false
    } else if k == 0 {
        ts.len() == 0
    } else {
        let e = ev[k - 1];
        if e.to == id && e.kind == EdgeKind::Calls && !path.contains(e.from) {
            &&& ts.len() > 0
            &&& callers_match(ts.drop_last(), ev, (k - 1) as nat, id, max_depth, d, path)
            &&& is_caller_tree(ts.last(), ev, e.from, max_depth, d + 1, path.push(e.from))
        } else {
            callers_match(ts, ev, (k - 1) as nat, id, max_depth, d, path)
        }
    }
}


/// Whether each caller listed in the tree, at every level, calls the node it is listed
/// under: the graph has a `Calls` edge from the caller's id to that node's id.
pub open spec fn callers_call(t: CallerTree, ev: Seq<EdgeV>) -> bool
    decreases t,
{
    forall|j: int| 0 <= j < t.callers@.len() ==> {
        &&& has_call_edge(ev, (#[trigger] t.callers@[j]).node@, t.node@)
        &&& callers_call(t.callers@[j], ev)
    }
}

proof fn lemma_match_calls(ts: Seq<CallerTree>, ev: Seq<EdgeV>, k: nat, id: Seq<char>, max_depth: nat, d: nat,
    path: Seq<Seq<char>>)
    requires
        callers_match(ts, ev, k, id, max_depth, d, path),
    ensures
        forall|j: int| 0 <= j < ts.len() ==> {
            &&& has_call_edge(ev, (#[trigger] ts[j]).node@, id)
            &&& callers_call(ts[j], ev)
        },
    decreases max_depth - d, 0nat, k,
{
    if k > 0 && d < max_depth && k <= ev.len() {
        let e = ev[k - 1];
        if e.to == id && e.kind == EdgeKind::Calls && !path.contains(e.from) {
            lemma_match_calls(ts.drop_last(), ev, (k - 1) as nat, id, max_depth, d, path);
            lemma_tree_calls(ts.last(), ev, e.from, max_depth, d + 1, path.push(e.from));
            assert forall|j: int| 0 <= j < ts.len() implies {
                &&& has_call_edge(ev, (#[trigger] ts[j]).node@, id)
                &&& callers_call(ts[j], ev)
            } by {
                if j < ts.len() - 1 {
                    assert(ts[j] == ts.drop_last()[j]);
                } else {
                    let w = k - 1;
                    assert(ev[w].from == ts[j].node@ && ev[w].to == id && ev[w].kind == EdgeKind::Calls);
                }
            }
        } else {
            lemma_match_calls(ts, ev, (k - 1) as nat, id, max_depth, d, path);
        }
    }
}

/// The callers tree lists only callers: under every node, each listed caller has a `Calls`
/// edge into that node (containment, imports and other kinds of edge make no caller).
pub proof fn lemma_tree_calls(t: CallerTree, ev: Seq<EdgeV>, id: Seq<char>, max_depth: nat, d: nat,
    path: Seq<Seq<char>>)
    requires
        is_caller_tree(t, ev, id, max_depth, d, path),
    ensures
        t.node@ == id,
        callers_call(t, ev),
    decreases max_depth - d, 1nat, 0nat,
{
    if d < max_depth {
        lemma_match_calls(t.callers@, ev, ev.len(), id, max_depth, d, path);
    }
}


/// Whether the tree, at every level above `max_depth`, lists each caller: every `Calls`
/// edge into a node's id from an id not on the branch down to it gives a listed caller.
pub open spec fn callers_complete(t: CallerTree, ev: Seq<EdgeV>, max_depth: nat, d: nat, path: Seq<Seq<char>>) -> bool
    decreases t,
{
    d < max_depth ==> {
        &&& forall|k: int| 0 <= k < ev.len() && (#[trigger] ev[k]).to == t.node@ && ev[k].kind == EdgeKind::Calls
            && !path.contains(ev[k].from) ==> exists|j: int| 0 <= j < t.callers@.len() && (#[trigger] t.callers@[j]).node@ == ev[k].from
        &&& forall|j: int| 0 <= j < t.callers@.len() ==>
            callers_complete(#[trigger] t.callers@[j], ev, max_depth, d + 1, path.push(t.callers@[j].node@))
    }
}

proof fn lemma_match_complete(ts: Seq<CallerTree>, ev: Seq<EdgeV>, k: nat, id: Seq<char>, max_depth: nat, d: nat,
    path: Seq<Seq<char>>)
    requires
        callers_match(ts, ev, k, id, max_depth, d, path),
    ensures
        forall|k2: int| 0 <= k2 < k && (#[trigger] ev[k2]).to == id && ev[k2].kind == EdgeKind::Calls
            && !path.contains(ev[k2].from) ==> exists|j: int| 0 <= j < ts.len() && (#[trigger] ts[j]).node@ == ev[k2].from,
        forall|j: int| 0 <= j < ts.len() ==>
            callers_complete(#[trigger] ts[j], ev, max_depth, d + 1, path.push(ts[j].node@)),
    decreases max_depth - d, 0nat, k,
{
    if k > 0 && d < max_depth && k <= ev.len() {
        let e = ev[k - 1];
        if e.to == id && e.kind == EdgeKind::Calls && !path.contains(e.from) {
            let front = ts.drop_last();
            lemma_match_complete(front, ev, (k - 1) as nat, id, max_depth, d, path);
            lemma_tree_complete(ts.last(), ev, e.from, max_depth, d + 1, path.push(e.from));
            lemma_tree_calls(ts.last(), ev, e.from, max_depth, d + 1, path.push(e.from));
            assert forall|k2: int| 0 <= k2 < k && (#[trigger] ev[k2]).to == id && ev[k2].kind == EdgeKind::Calls
                && !path.contains(ev[k2].from) implies exists|j: int| 0 <= j < ts.len() && (#[trigger] ts[j]).node@ == ev[k2].from by {
                if k2 < k - 1 {
                    let j = choose|j: int| 0 <= j < front.len() && (#[trigger] front[j]).node@ == ev[k2].from;
                    assert(ts[j] == front[j]);
                } else {
                    assert(ts[ts.len() - 1].node@ == ev[k2].from);
                }
            }
            assert forall|j: int| 0 <= j < ts.len() implies
                callers_complete(#[trigger] ts[j], ev, max_depth, d + 1, path.push(ts[j].node@)) by {
                if j < ts.len() - 1 {
                    assert(ts[j] == front[j]);
                }
            }
        } else {
            lemma_match_complete(ts, ev, (k - 1) as nat, id, max_depth, d, path);
        }
    }
}

/// The callers tree misses no caller: at every level above the depth limit, each `Calls`
/// edge into a node from an id not already on the branch down to it gives a listed caller.
pub proof fn lemma_tree_complete(t: CallerTree, ev: Seq<EdgeV>, id: Seq<char>, max_depth: nat, d: nat,
    path: Seq<Seq<char>>)
    requires
        is_caller_tree(t, ev, id, max_depth, d, path),
    ensures
        callers_complete(t, ev, max_depth, d, path),
    decreases max_depth - d, 1nat, 0nat,
{
    if d < max_depth {
        lemma_match_complete(t.callers@, ev, ev.len(), id, max_depth, d, path);
    }
}

fn contains_id(path: &Vec<String>, id: &String) -> (r: bool)
    ensures
        r == path.deep_view().contains(id@),
{
    let mut i: usize = 0;
    while i < path.len()
        invariant
            i <= path@.len(),
            forall|j: int| 0 <= j < i ==> #[trigger] path.deep_view()[j] != id@,
        decreases path@.len() - i,
    {
        if same_text(&path[i], id) {
            assert(path.deep_view()[i as int] == id@);
            return true;
        }
        i = i + 1;
    }
    false
}

fn build_callers_tree(graph: &CodeGraph, current: &String, max_depth: usize, depth: usize, path: &mut Vec<String>) -> (t: CallerTree)
    ensures
        is_caller_tree(t, graph.ev(), current@, max_depth as nat, depth as nat, old(path).deep_view()),
        final(path).deep_view() == old(path).deep_view(),
    decreases max_depth - depth,
{
    if depth >= max_depth {
        return CallerTree { node: copy_string(current), callers: Vec::new() };
    }
    let ghost ev = graph.ev();
    let ghost p0 = path.deep_view();
    let mut callers: Vec<CallerTree> = Vec::new();
    let mut i: usize = 0;
    while i < graph.edges.len()
        invariant
            i <= graph.edges@.len(),
            ev == graph.ev(),
            depth < max_depth,
            path.deep_view() == p0,
            callers_match(callers@, ev, i as nat, current@, max_depth as nat, depth as nat, p0),
        decreases graph.edges@.len() - i,
    {
        let e = &graph.edges[i];
        assert(ev[i as int] == e@);
        if e.kind == EdgeKind::Calls && same_text(&e.to_id, current) && !contains_id(path, &e.from_id) {
            let ghost before = path.deep_view();
            path.push(copy_string(&e.from_id));
            assert(path.deep_view() =~= p0.push(e.from_id@));
            let sub = build_callers_tree(graph, &e.from_id, max_depth, depth + 1, path);
            let ghost mid = path@;
            assert(path.deep_view() == p0.push(e.from_id@));
            path.pop();
            assert(path@ =~= mid.drop_last());
            assert(path.deep_view() =~= p0.push(e.from_id@).drop_last());
            assert(path.deep_view() =~= p0);
            let ghost cs0 = callers@;
            callers.push(sub);
            assert(callers@.drop_last() =~= cs0);
        }
        i = i + 1;
    }
    CallerTree { node: copy_string(current), callers }
}

impl CodeGraph {
    /// The tree of the callers of a node, to `max_depth` levels: at each level, the ids that
    /// a `Calls` edge leads from into the node, in the order of the edges, each not yet on
    /// the branch from the root (the root included).
    pub fn callers_recursive(&self, target_node_id: &str, max_depth: usize) -> (t: CallerTree)
        ensures
            is_caller_tree(t, self.ev(), target_node_id@, max_depth as nat, 0, seq![target_node_id@]),
    {
        let target = to_owned_string(target_node_id);
        let mut path: Vec<String> = Vec::new();
        path.push(copy_string(&target));
        assert(path.deep_view() =~= seq![target_node_id@]);
        build_callers_tree(self, &target, max_depth, 0, &mut path)
    }
}

} // verus!
