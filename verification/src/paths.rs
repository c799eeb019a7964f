//! Enumeration of simple call paths between two nodes.

use vstd::prelude::*;
use crate::ir::{CodeGraph, EdgeKind, EdgeV};
use crate::text::{copy_string, same_text, to_owned_string};

verus! {

/// The number of edges whose target is not yet on the path.
pub open spec fn off_path(edges: Seq<EdgeV>, path: Seq<Seq<char>>) -> nat
    decreases edges.len(),
{
    if edges.len() == 0 {
        0
    } else {
        off_path(edges.drop_last(), path) + if path.contains(edges.last().to) { 0nat } else { 1nat }
    }
}

/// Putting on the path the target of one of the edges, not yet on it, lowers `off_path`.
pub proof fn lemma_off_path_push(edges: Seq<EdgeV>, path: Seq<Seq<char>>, j: int)
    requires
        0 <= j < edges.len(),
        !path.contains(edges[j].to),
    ensures
        off_path(edges, path.push(edges[j].to)) < off_path(edges, path),
    decreases edges.len(),
{
    lemma_off_path_push_le(edges.drop_last(), path, edges[j].to);
    assert(path.push(edges[j].to).contains(edges[j].to)) by {
        assert(path.push(edges[j].to)[path.len() as int] == edges[j].to);
    }
    if j < edges.len() - 1 {
        assert(edges.drop_last()[j] == edges[j]);
        lemma_off_path_push(edges.drop_last(), path, j);
    }
    let x = edges[j].to;
    if path.contains(edges.last().to) {
        let k = choose|k: int| 0 <= k < path.len() && path[k] == edges.last().to;
        assert(path.push(x)[k] == edges.last().to);
    }
}

/// Putting anything on the path never raises `off_path`.
pub proof fn lemma_off_path_push_le(edges: Seq<EdgeV>, path: Seq<Seq<char>>, x: Seq<char>)
    ensures
        off_path(edges, path.push(x)) <= off_path(edges, path),
    decreases edges.len(),
{
    if edges.len() > 0 {
        lemma_off_path_push_le(edges.drop_last(), path, x);
        if path.contains(edges.last().to) {
            let k = choose|k: int| 0 <= k < path.len() && path[k] == edges.last().to;
            assert(path.push(x)[k] == edges.last().to);
        }
    }
}

/// Whether `e` is a `Calls` edge leaving `cur` towards a node not yet on `path`.
pub open spec fn extends_path(e: EdgeV, path: Seq<Seq<char>>) -> bool {
    path.len() > 0 && e.from == path.last() && e.kind == EdgeKind::Calls && !path.contains(e.to)
}

/// All simple `Calls` paths that extend `path` and end at `target`, in depth-first order:
/// the edges are tried in the order of the graph, and a path stops at its first visit of
/// `target`.
pub open spec fn simple_paths(edges: Seq<EdgeV>, path: Seq<Seq<char>>, target: Seq<char>) -> Seq<Seq<Seq<char>>>
    decreases off_path(edges, path), 1nat, 0int,
{
    if path.len() > 0 && path.last() == target {
        seq![path]
    } else {
        paths_via(edges, path, target, 0)
    }
}

/// The simple paths that extend `path` through the edges from index `i` on.
pub open spec fn paths_via(edges: Seq<EdgeV>, path: Seq<Seq<char>>, target: Seq<char>, i: int) -> Seq<Seq<Seq<char>>>
    decreases off_path(edges, path), 0nat, edges.len() - i,
{
    if i < 0 || i >= edges.len() {
        seq![]
    } else if extends_path(edges[i], path) {
        proof {
            lemma_off_path_push(edges, path, i);
        }
        simple_paths(edges, path.push(edges[i].to), target) + paths_via(edges, path, target, i + 1)
    } else {
        paths_via(edges, path, target, i + 1)
    }
}

/// The first `max` elements of `s` (all of them when there are fewer).
pub open spec fn truncate<T>(s: Seq<T>, max: nat) -> Seq<T> {
    if s.len() <= max { s } else { s.take(max as int) }
}

/// What a bounded collection holds after `found` has been offered to it, when it held `done`.
pub open spec fn bounded_append<T>(done: Seq<T>, found: Seq<T>, max: nat) -> Seq<T> {
    if done.len() >= max { done } else { truncate(done + found, max) }
}

proof fn lemma_bounded_append_assoc<T>(p: Seq<T>, a: Seq<T>, b: Seq<T>, m: nat)
    ensures
        bounded_append(bounded_append(p, a, m), b, m) == bounded_append(p, a + b, m),
{
    assert(p + (a + b) == (p + a) + b);
    if p.len() < m {
        if (p + a).len() > m {
            assert(((p + a) + b).take(m as int) == (p + a).take(m as int));
        }
    }
}

proof fn lemma_bounded_append_empty<T>(p: Seq<T>, m: nat)
    ensures
        bounded_append(p, Seq::<T>::empty(), m) == p,
{
    assert(p + Seq::<T>::empty() == p);
}


/// Whether one of the edges is a `Calls` edge from `a` to `b`.
pub open spec fn has_call_edge(edges: Seq<EdgeV>, a: Seq<char>, b: Seq<char>) -> bool {
    exists|k: int| 0 <= k < edges.len() && edges[k].from == a && edges[k].to == b && #[trigger] edges[k].kind == EdgeKind::Calls
}

/// Whether each step of `q` from position `lo` on follows a `Calls` edge of the graph.
pub open spec fn steps_are_calls(edges: Seq<EdgeV>, q: Seq<Seq<char>>, lo: int) -> bool {
    forall|i: int| lo <= i < q.len() - 1 ==> #[trigger] has_call_edge(edges, q[i], q[i + 1])
}

/// Whether `q` extends `path`, ends at `target` and steps along `Calls` edges from where
/// `path` ends.
pub open spec fn call_path_from(edges: Seq<EdgeV>, path: Seq<Seq<char>>, target: Seq<char>, q: Seq<Seq<char>>) -> bool {
    &&& q.no_duplicates()
    &&& path.len() <= q.len()
    &&& q.take(path.len() as int) == path
    &&& q.len() > 0 && q.last() == target
    &&& steps_are_calls(edges, q, path.len() - 1)
}

proof fn lemma_simple_paths_follow(edges: Seq<EdgeV>, path: Seq<Seq<char>>, target: Seq<char>)
    requires
        path.len() > 0,
        path.no_duplicates(),
    ensures
        forall|k: int| 0 <= k < simple_paths(edges, path, target).len() ==>
            call_path_from(edges, path, target, #[trigger] simple_paths(edges, path, target)[k]),
    decreases off_path(edges, path), 1nat, 0int,
{
    if path.len() > 0 && path.last() == target {
        assert(path.take(path.len() as int) =~= path);
        assert(simple_paths(edges, path, target) == seq![path]);
        assert(call_path_from(edges, path, target, path));
        assert(simple_paths(edges, path, target)[0] == path);
    } else {
        assert(simple_paths(edges, path, target) == paths_via(edges, path, target, 0));
        lemma_paths_via_follow(edges, path, target, 0);
    }
}

proof fn lemma_paths_via_follow(edges: Seq<EdgeV>, path: Seq<Seq<char>>, target: Seq<char>, i: int)
    requires
        path.len() > 0,
        path.no_duplicates(),
    ensures
        forall|k: int| 0 <= k < paths_via(edges, path, target, i).len() ==>
            call_path_from(edges, path, target, #[trigger] paths_via(edges, path, target, i)[k]),
    decreases off_path(edges, path), 0nat, edges.len() - i,
{
    if i < 0 || i >= edges.len() {
        assert(paths_via(edges, path, target, i) == Seq::<Seq<Seq<char>>>::empty());
    } else if extends_path(edges[i], path) {
        lemma_off_path_push(edges, path, i);
        let p2 = path.push(edges[i].to);
        assert(p2.no_duplicates()) by {
            assert forall|x: int, y: int| 0 <= x < p2.len() && 0 <= y < p2.len() && x != y implies p2[x] != p2[y] by {
                if y == path.len() && x < path.len() {
                    assert(path.contains(path[x]));
                }
                if x == path.len() && y < path.len() {
                    assert(path.contains(path[y]));
                }
            }
        }
        lemma_simple_paths_follow(edges, p2, target);
        lemma_paths_via_follow(edges, path, target, i + 1);
        let a = simple_paths(edges, p2, target);
        let b = paths_via(edges, path, target, i + 1);
        assert(paths_via(edges, path, target, i) == a + b);
        assert forall|k: int| 0 <= k < (a + b).len() implies call_path_from(edges, path, target, #[trigger] (a + b)[k]) by {
            if k < a.len() {
                let q = a[k];
                assert((a + b)[k] == q);
                assert(call_path_from(edges, p2, target, q));
                assert(p2.take(path.len() as int) =~= path);
                assert(q.take(path.len() as int) =~= q.take(p2.len() as int).take(path.len() as int));
                assert(q.take(path.len() as int) == path);
                let last = path.len() - 1;
                assert(q[last] == q.take(p2.len() as int)[last]);
                assert(q[last + 1] == q.take(p2.len() as int)[last + 1]);
                assert(p2[last] == path[last]);
                assert(p2[last + 1] == edges[i].to);
                assert(edges[i].from == q[last] && edges[i].to == q[last + 1] && edges[i].kind == EdgeKind::Calls);
                assert(has_call_edge(edges, q[last], q[last + 1]));
                assert(q.len() > 0 && q.last() == target);
                assert(steps_are_calls(edges, q, path.len() - 1));
                assert(call_path_from(edges, path, target, q));
                assert forall|j: int| last <= j < q.len() - 1 implies #[trigger] has_call_edge(edges, q[j], q[j + 1]) by {
                    if j > last {
                        assert(steps_are_calls(edges, q, p2.len() - 1));
                    }
                }
            } else {
                assert((a + b)[k] == b[k - a.len()]);
            }
        }
    } else {
        assert(paths_via(edges, path, target, i) == paths_via(edges, path, target, i + 1));
        lemma_paths_via_follow(edges, path, target, i + 1);
    }
}

/// Every path that `all_paths` finds leads from the start to the target along `Calls`
/// edges of the graph: each step from one id to the next is a `Calls` edge, and no id comes
/// twice. (`all_paths` gives the first `max` of these paths.)
pub proof fn lemma_all_paths_follow_calls(edges: Seq<EdgeV>, start: Seq<char>, target: Seq<char>, max: nat)
    ensures
        forall|k: int| 0 <= k < truncate(simple_paths(edges, seq![start], target), max).len() ==> {
            let q = #[trigger] truncate(simple_paths(edges, seq![start], target), max)[k];
            &&& q.len() > 0
            &&& q[0] == start
            &&& q.last() == target
            &&& q.no_duplicates()
            &&& forall|i: int| 0 <= i < q.len() - 1 ==> #[trigger] has_call_edge(edges, q[i], q[i + 1])
        },
{
    let all = simple_paths(edges, seq![start], target);
    assert(seq![start].no_duplicates());
    lemma_simple_paths_follow(edges, seq![start], target);
    assert forall|k: int| 0 <= k < truncate(all, max).len() implies {
        let q = #[trigger] truncate(all, max)[k];
        &&& q.len() > 0
        &&& q[0] == start
        &&& q.last() == target
        &&& q.no_duplicates()
        &&& forall|i: int| 0 <= i < q.len() - 1 ==> #[trigger] has_call_edge(edges, q[i], q[i + 1])
    } by {
        assert(truncate(all, max)[k] == all[k]);
        let q = all[k];
        assert(call_path_from(edges, seq![start], target, q));
        assert(q[0] == q.take(1)[0]);
    }
}

/// Whether `s` occurs in `path`.
fn path_contains(path: &Vec<String>, s: &String) -> (r: bool)
    ensures
        r == path.deep_view().contains(s@),
{
    let mut i: usize = 0;
    while i < path.len()
        invariant
            i <= path@.len(),
            forall|j: int| 0 <= j < i ==> path.deep_view()[j] != s@,
        decreases path@.len() - i,
    {
        if same_text(&path[i], s) {
            assert(path.deep_view()[i as int] == s@);
            return true;
        }
        i = i + 1;
    }
    false
}

/// A copy of a list of strings.
pub fn copy_strings(v: &Vec<String>) -> (r: Vec<String>)
    ensures
        r.deep_view() == v.deep_view(),
{
    let mut r: Vec<String> = Vec::new();
    let mut i: usize = 0;
    while i < v.len()
        invariant
            i <= v@.len(),
            r.deep_view() == v.deep_view().take(i as int),
            r@.len() == i,
        decreases v@.len() - i,
    {
        let ghost r0 = r@;
        let ghost d0 = r.deep_view();
        let c = copy_string(&v[i]);
        r.push(c);
        i = i + 1;
        assert forall|j: int| 0 <= j < i implies r.deep_view()[j] == v.deep_view()[j] by {
            if j < i - 1 {
                assert(r@[j] == r0[j]);
                assert(r.deep_view()[j] == r@[j]@);
                assert(d0[j] == r0[j]@);
                assert(d0[j] == v.deep_view().take(i - 1)[j]);
            } else {
                assert(r@[j] == c);
                assert(r.deep_view()[j] == r@[j]@);
            }
        }
        assert(r.deep_view() =~= v.deep_view().take(i as int));
    }
    assert(v.deep_view().take(v@.len() as int) =~= v.deep_view());
    r
}

impl CodeGraph {
    /// Returns all paths (up to `max_paths`) from `start_node_id` to `target_node_id`.
    /// Paths follow the `Calls` edge kind.
    pub fn all_paths(&self, start_node_id: &str, target_node_id: &str, max_paths: usize) -> (r: Vec<Vec<String>>)
        ensures
            r.deep_view() == truncate(simple_paths(self.ev(), seq![start_node_id@], target_node_id@), max_paths as nat),
    {
        let mut paths: Vec<Vec<String>> = Vec::new();
        let mut current_path: Vec<String> = Vec::new();
        current_path.push(to_owned_string(start_node_id));
        let target = to_owned_string(target_node_id);
        assert(current_path.deep_view() =~= seq![start_node_id@]);
        assert(paths.deep_view() =~= Seq::<Seq<Seq<char>>>::empty());
        self.dfs_all_paths(&target, max_paths, &mut current_path, &mut paths);
        assert(Seq::<Seq<Seq<char>>>::empty() + simple_paths(self.ev(), seq![start_node_id@], target_node_id@)
            =~= simple_paths(self.ev(), seq![start_node_id@], target_node_id@));
        paths
    }

    fn dfs_all_paths(
        &self,
        target: &String,
        max_paths: usize,
        current_path: &mut Vec<String>,
        paths: &mut Vec<Vec<String>>,
    )
        requires
            old(current_path)@.len() > 0,
            old(paths)@.len() <= max_paths,
        ensures
            final(current_path).deep_view() == old(current_path).deep_view(),
            final(paths).deep_view() == bounded_append(
                old(paths).deep_view(),
                simple_paths(self.ev(), old(current_path).deep_view(), target@),
                max_paths as nat,
            ),
            final(paths)@.len() <= max_paths,
        decreases off_path(self.ev(), old(current_path).deep_view()), 1nat,
    {
        let ghost path0 = current_path.deep_view();
        let ghost paths0 = paths.deep_view();
        let ghost edges = self.ev();
        if paths.len() >= max_paths {
            return;
        }
        let n = current_path.len();
        let current = copy_string(&current_path[n - 1]);
        assert(path0.last() == current@);
        if same_text(&current, target) {
            let snapshot = copy_strings(current_path);
            paths.push(snapshot);
            assert(paths.deep_view() =~= paths0 + seq![path0]);
            return;
        }
        assert(simple_paths(edges, path0, target@) == paths_via(edges, path0, target@, 0));
        let mut i: usize = 0;
        while i < self.edges.len()
            invariant
                0 <= i <= self.edges@.len(),
                edges == self.ev(),
                current_path.deep_view() == path0,
                path0 == old(current_path).deep_view(),
                path0.len() > 0,
                path0.last() == current@,
                path0.last() != target@,
                paths@.len() <= max_paths,
                bounded_append(paths.deep_view(), paths_via(edges, path0, target@, i as int), max_paths as nat)
                    == bounded_append(paths0, paths_via(edges, path0, target@, 0), max_paths as nat),
            decreases self.edges@.len() - i,
        {
            let edge = &self.edges[i];
            assert(edges[i as int] == edge@);
            let ghost before = paths.deep_view();
            if same_text(&edge.from_id, &current) && edge.kind == EdgeKind::Calls
                && !path_contains(current_path, &edge.to_id) {
                assert(extends_path(edges[i as int], path0));
                let ghost cp0 = current_path@;
                current_path.push(copy_string(&edge.to_id));
                assert(current_path.deep_view() =~= path0.push(edge.to_id@)) by {
                    assert forall|j: int| 0 <= j < path0.len() implies current_path.deep_view()[j] == path0[j] by {
                        assert(current_path@[j] == cp0[j]);
                    }
                }
                proof {
                    lemma_off_path_push(edges, path0, i as int);
                }
                assert(off_path(self.ev(), current_path.deep_view()) < off_path(self.ev(), path0));
                self.dfs_all_paths(target, max_paths, current_path, paths);
                let ghost cp1 = current_path@;
                current_path.pop();
                assert(current_path.deep_view() =~= path0) by {
                    assert forall|j: int| 0 <= j < path0.len() implies current_path.deep_view()[j] == path0[j] by {
                        assert(current_path@[j] == cp1[j]);
                        assert(cp1[j]@ == path0.push(edge.to_id@)[j]);
                    }
                }
                proof {
                    lemma_bounded_append_assoc(
                        before,
                        simple_paths(edges, path0.push(edges[i as int].to), target@),
                        paths_via(edges, path0, target@, i + 1),
                        max_paths as nat,
                    );
                }
            } else {
                assert(!extends_path(edges[i as int], path0));
            }
            i = i + 1;
        }
        proof {
            lemma_bounded_append_empty(paths.deep_view(), max_paths as nat);
        }
    }
}

} // verus!
