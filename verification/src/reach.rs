//! Reachability in the code graph: the specification over node ids, and breadth-first
//! exploration over an indexed copy of the graph.

use vstd::prelude::*;
use crate::ir::{Edge, EdgeKind, EdgeV};
use crate::text::{copy_string, same_text, to_owned_string};
use crate::ir::CodeGraph;

verus! {

/// Whether an edge takes part in a walk: every edge, or only `Calls` edges.
pub open spec fn edge_ok(e: EdgeV, calls_only: bool) -> bool {
    !calls_only || e.kind == EdgeKind::Calls
}

/// Whether some edge of the graph (of the kind considered) leads from `a` to `b`.
pub open spec fn step(edges: Seq<EdgeV>, calls_only: bool, a: Seq<char>, b: Seq<char>) -> bool {
    exists|i: int| 0 <= i < edges.len() && #[trigger] edges[i].from == a && edges[i].to == b && edge_ok(edges[i], calls_only)
}

/// Whether the sequence of ids is a walk along the edges (of the kind considered).
pub open spec fn is_walk(edges: Seq<EdgeV>, calls_only: bool, p: Seq<Seq<char>>) -> bool {
    p.len() >= 1 && forall|i: int| 0 <= i < p.len() - 1 ==> #[trigger] step(edges, calls_only, p[i], p[i + 1])
}

/// Whether `b` is reached from `a` by exactly `n` edges.
pub open spec fn reach_in(edges: Seq<EdgeV>, calls_only: bool, a: Seq<char>, b: Seq<char>, n: nat) -> bool {
    exists|p: Seq<Seq<char>>| #[trigger] is_walk(edges, calls_only, p) && p.len() == n + 1 && p[0] == a && p[n as int] == b
}

/// Whether `b` is reached from `a` by some number of edges (zero included).
pub open spec fn reaches(edges: Seq<EdgeV>, calls_only: bool, a: Seq<char>, b: Seq<char>) -> bool {
    exists|n: nat| reach_in(edges, calls_only, a, b, n)
}

/// Every id reaches itself by no edge.
pub proof fn lemma_reach_zero(edges: Seq<EdgeV>, co: bool, a: Seq<char>)
    ensures
        reach_in(edges, co, a, a, 0),
{
    assert(is_walk(edges, co, seq![a]));
}

/// A walk of `n + 1` edges is a walk of `n` edges and one more edge, at either end.
pub proof fn lemma_reach_split(edges: Seq<EdgeV>, co: bool, a: Seq<char>, b: Seq<char>, n: nat)
    ensures
        reach_in(edges, co, a, b, n + 1) <==> exists|m: Seq<char>| #[trigger] reach_in(edges, co, a, m, n) && step(edges, co, m, b),
        reach_in(edges, co, a, b, n + 1) <==> exists|m: Seq<char>| #[trigger] step(edges, co, a, m) && reach_in(edges, co, m, b, n),
{
    if reach_in(edges, co, a, b, n + 1) {
        let p = choose|p: Seq<Seq<char>>| #[trigger] is_walk(edges, co, p) && p.len() == n + 2 && p[0] == a && p[n + 1int] == b;
        let q = p.drop_last();
        assert(is_walk(edges, co, q)) by {
            assert forall|i: int| 0 <= i < q.len() - 1 implies #[trigger] step(edges, co, q[i], q[i + 1]) by {
                assert(step(edges, co, p[i], p[i + 1]));
            }
        }
        assert(step(edges, co, p[n as int], p[n + 1int]));
        assert(reach_in(edges, co, a, p[n as int], n));
        let r = p.drop_first();
        assert(is_walk(edges, co, r)) by {
            assert forall|i: int| 0 <= i < r.len() - 1 implies #[trigger] step(edges, co, r[i], r[i + 1]) by {
                let k = i + 1;
                assert(step(edges, co, p[k], p[k + 1]));
            }
        }
        let k0: int = 0;
        assert(step(edges, co, p[k0], p[k0 + 1]));
        assert(reach_in(edges, co, p[1], b, n));
    }
    if exists|m: Seq<char>| #[trigger] reach_in(edges, co, a, m, n) && step(edges, co, m, b) {
        let m = choose|m: Seq<char>| #[trigger] reach_in(edges, co, a, m, n) && step(edges, co, m, b);
        let p = choose|p: Seq<Seq<char>>| #[trigger] is_walk(edges, co, p) && p.len() == n + 1 && p[0] == a && p[n as int] == m;
        let q = p.push(b);
        assert(is_walk(edges, co, q)) by {
            assert forall|i: int| 0 <= i < q.len() - 1 implies #[trigger] step(edges, co, q[i], q[i + 1]) by {
                if i < n {
                    assert(step(edges, co, p[i], p[i + 1]));
                }
            }
        }
        assert(q[n + 1int] == b);
    }
    if exists|m: Seq<char>| #[trigger] step(edges, co, a, m) && reach_in(edges, co, m, b, n) {
        let m = choose|m: Seq<char>| #[trigger] step(edges, co, a, m) && reach_in(edges, co, m, b, n);
        let p = choose|p: Seq<Seq<char>>| #[trigger] is_walk(edges, co, p) && p.len() == n + 1 && p[0] == m && p[n as int] == b;
        let q = seq![a] + p;
        assert(is_walk(edges, co, q)) by {
            assert forall|i: int| 0 <= i < q.len() - 1 implies #[trigger] step(edges, co, q[i], q[i + 1]) by {
                if i > 0 {
                    let k = i - 1;
                    assert(step(edges, co, p[k], p[k + 1]));
                }
            }
        }
        assert(q[n + 1int] == b);
    }
}

/// Walks compose.
pub proof fn lemma_reach_trans(edges: Seq<EdgeV>, co: bool, a: Seq<char>, b: Seq<char>, c: Seq<char>, n: nat, m: nat)
    requires
        reach_in(edges, co, a, b, n),
        reach_in(edges, co, b, c, m),
    ensures
        reach_in(edges, co, a, c, n + m),
{
    let p = choose|p: Seq<Seq<char>>| #[trigger] is_walk(edges, co, p) && p.len() == n + 1 && p[0] == a && p[n as int] == b;
    let q = choose|q: Seq<Seq<char>>| #[trigger] is_walk(edges, co, q) && q.len() == m + 1 && q[0] == b && q[m as int] == c;
    let r = p + q.drop_first();
    assert(is_walk(edges, co, r)) by {
        assert forall|i: int| 0 <= i < r.len() - 1 implies #[trigger] step(edges, co, r[i], r[i + 1]) by {
            if i < n {
                assert(step(edges, co, p[i], p[i + 1]));
            } else {
                assert(step(edges, co, q[i - n], q[i - n + 1]));
            }
        }
    }
    assert(r[(n + m) as int] == c);
}

/// Whether the sequence of indices is a walk along the adjacency lists.
pub open spec fn is_iwalk(adj: Seq<Seq<usize>>, p: Seq<int>) -> bool {
    p.len() >= 1 && forall|i: int| 0 <= i < p.len() - 1 ==> 0 <= #[trigger] p[i] < adj.len() && adj[p[i]].contains(p[i + 1] as usize)
}

/// Whether index `b` is reached from index `a` by exactly `n` steps of the adjacency lists.
pub open spec fn ireach(adj: Seq<Seq<usize>>, a: int, b: int, n: nat) -> bool {
    exists|p: Seq<int>| #[trigger] is_iwalk(adj, p) && p.len() == n + 1 && p[0] == a && p[n as int] == b
}

pub proof fn lemma_ireach_zero(adj: Seq<Seq<usize>>, a: int)
    ensures
        ireach(adj, a, a, 0),
{
    assert(is_iwalk(adj, seq![a]));
}

pub proof fn lemma_ireach_extend(adj: Seq<Seq<usize>>, a: int, m: int, b: int, n: nat)
    requires
        ireach(adj, a, m, n),
        0 <= m < adj.len(),
        adj[m].contains(b as usize),
        b >= 0,
    ensures
        ireach(adj, a, b, n + 1),
{
    let p = choose|p: Seq<int>| #[trigger] is_iwalk(adj, p) && p.len() == n + 1 && p[0] == a && p[n as int] == m;
    let q = p.push(b);
    assert(is_iwalk(adj, q)) by {
        assert forall|i: int| 0 <= i < q.len() - 1 implies 0 <= #[trigger] q[i] < adj.len() && adj[q[i]].contains(q[i + 1] as usize) by {
            if i < n {
                assert(0 <= p[i] < adj.len() && adj[p[i]].contains(p[i + 1] as usize));
            }
        }
    }
    assert(q[n + 1int] == b);
}

pub proof fn lemma_ireach_last(adj: Seq<Seq<usize>>, a: int, b: int, n: nat)
    requires
        ireach(adj, a, b, n + 1),
    ensures
        exists|m: int| #[trigger] ireach(adj, a, m, n) && 0 <= m < adj.len() && adj[m].contains(b as usize),
{
    let p = choose|p: Seq<int>| #[trigger] is_iwalk(adj, p) && p.len() == n + 2 && p[0] == a && p[n + 1int] == b;
    let q = p.drop_last();
    assert(is_iwalk(adj, q)) by {
        assert forall|i: int| 0 <= i < q.len() - 1 implies 0 <= #[trigger] q[i] < adj.len() && adj[q[i]].contains(q[i + 1] as usize) by {
            assert(0 <= p[i] < adj.len() && adj[p[i]].contains(p[i + 1] as usize));
        }
    }
    assert(0 <= p[n as int] < adj.len() && adj[p[n as int]].contains(p[n + 1int] as usize));
    assert(ireach(adj, a, p[n as int], n));
}

/// The adjacency lists of a graph over indices, as plain values.
pub open spec fn adj_v(adj: Seq<Vec<usize>>) -> Seq<Seq<usize>> {
    adj.map_values(|v: Vec<usize>| v@)
}

/// Whether every entry of the adjacency lists is an index of the graph.
pub open spec fn adj_wf(adj: Seq<Seq<usize>>) -> bool {
    forall|u: int, k: int| 0 <= u < adj.len() && 0 <= k < adj[u].len() ==> (#[trigger] adj[u][k]) < adj.len()
}

/// Whether index `j` is reached from one of the `sources` in at most `d` steps
/// (in any number of steps when `d` is `None`).
pub open spec fn ireached(adj: Seq<Seq<usize>>, sources: Seq<usize>, j: int, d: Option<nat>) -> bool {
    exists|k: int, n: nat| 0 <= k < sources.len() && (d is None || n <= d->0) && #[trigger] ireach(adj, sources[k] as int, j, n)
}

proof fn lemma_push_contains(q: Seq<usize>, x: usize)
    ensures
        forall|y: usize| q.push(x).contains(y) <==> (q.contains(y) || y == x),
{
    assert forall|y: usize| q.push(x).contains(y) <==> (q.contains(y) || y == x) by {
        if q.contains(y) {
            let k = choose|k: int| 0 <= k < q.len() && q[k] == y;
            assert(q.push(x)[k] == y);
        }
        if y == x {
            assert(q.push(x)[q.len() as int] == y);
        }
        if q.push(x).contains(y) && y != x {
            let k = choose|k: int| 0 <= k < q.len() + 1 && q.push(x)[k] == y;
            assert(q[k] == y);
        }
    }
}

/// The number of `false` entries.
pub open spec fn count_false(v: Seq<bool>) -> nat
    decreases v.len(),
{
    if v.len() == 0 { 0 } else { count_false(v.drop_last()) + if v.last() { 0nat } else { 1nat } }
}

proof fn lemma_count_false_set(v: Seq<bool>, j: int)
    requires
        0 <= j < v.len(),
        !v[j],
    ensures
        count_false(v.update(j, true)) < count_false(v),
    decreases v.len(),
{
    if j < v.len() - 1 {
        assert(v.update(j, true).drop_last() == v.drop_last().update(j, true));
        lemma_count_false_set(v.drop_last(), j);
    } else {
        assert(v.update(j, true).drop_last() == v.drop_last());
    }
}

/// A vector of `n` copies of `false`.
pub fn all_false(n: usize) -> (v: Vec<bool>)
    ensures
        v@.len() == n,
        forall|j: int| 0 <= j < n ==> !v@[j],
{
    let mut v: Vec<bool> = Vec::new();
    let mut i: usize = 0;
    while i < n
        invariant
            i <= n,
            v@.len() == i,
            forall|j: int| 0 <= j < i ==> !v@[j],
        decreases n - i,
    {
        v.push(false);
        i = i + 1;
    }
    v
}

/// Marks every index reached from `sources` through the adjacency lists.
pub fn explore(adj: &Vec<Vec<usize>>, sources: &Vec<usize>) -> (visited: Vec<bool>)
    requires
        adj_wf(adj_v(adj@)),
        forall|k: int| 0 <= k < sources@.len() ==> sources@[k] < adj@.len(),
    ensures
        visited@.len() == adj@.len(),
        forall|j: int| 0 <= j < adj@.len() ==> (visited@[j] <==> ireached(adj_v(adj@), sources@, j, None)),
{
    let ghost g = adj_v(adj@);
    let n = adj.len();
    let mut visited = all_false(n);
    let mut queue: Vec<usize> = Vec::new();
    let mut i: usize = 0;
    while i < sources.len()
        invariant
            g == adj_v(adj@),
            adj_wf(g),
            n == adj@.len(),
            i <= sources@.len(),
            forall|k: int| 0 <= k < sources@.len() ==> sources@[k] < n,
            visited@.len() == n,
            forall|j: int| 0 <= j < n ==> (visited@[j] <==> queue@.contains(j as usize)),
            forall|k: int| 0 <= k < queue@.len() ==> queue@[k] < n,
            forall|k: int| 0 <= k < queue@.len() ==> ireached(g, sources@, queue@[k] as int, None),
            forall|k: int| 0 <= k < i ==> visited@[sources@[k] as int],
        decreases sources@.len() - i,
    {
        let s = sources[i];
        if !visited[s] {
            let ghost q0 = queue@;
            let ghost v0 = visited@;
            visited.set(s, true);
            queue.push(s);
            proof {
                lemma_ireach_zero(g, s as int);
                lemma_push_contains(q0, s);
            }
            assert(ireached(g, sources@, s as int, None));
            assert forall|j: int| 0 <= j < n implies (visited@[j] <==> queue@.contains(j as usize)) by {
                if j != s {
                    assert(visited@[j] == v0[j]);
                }
            }
        }
        i = i + 1;
    }
    let mut q: usize = 0;
    while q < queue.len()
        invariant
            g == adj_v(adj@),
            adj_wf(g),
            n == adj@.len(),
            q <= queue@.len(),
            forall|k: int| 0 <= k < sources@.len() ==> sources@[k] < n,
            visited@.len() == n,
            forall|j: int| 0 <= j < n ==> (visited@[j] <==> queue@.contains(j as usize)),
            forall|k: int| 0 <= k < queue@.len() ==> queue@[k] < n,
            forall|k: int| 0 <= k < queue@.len() ==> ireached(g, sources@, queue@[k] as int, None),
            forall|k: int| 0 <= k < sources@.len() ==> visited@[sources@[k] as int],
            forall|k: int, t: int| 0 <= k < q && 0 <= t < g[queue@[k] as int].len() ==> visited@[#[trigger] g[queue@[k] as int][t] as int],
        decreases count_false(visited@), queue@.len() - q,
    {
        let u = queue[q];
        let ghost cf0 = count_false(visited@);
        let ghost qlen0 = queue@.len();
        let nbrs = &adj[u];
        assert(nbrs@ == g[u as int]);
        let mut t: usize = 0;
        while t < nbrs.len()
            invariant
                g == adj_v(adj@),
                adj_wf(g),
                n == adj@.len(),
                u < n,
                forall|k: int| 0 <= k < sources@.len() ==> sources@[k] < n,
                nbrs@ == g[u as int],
                queue@[q as int] == u,
                q < queue@.len(),
                qlen0 <= queue@.len(),
                t <= nbrs@.len(),
                visited@.len() == n,
                forall|j: int| 0 <= j < n ==> (visited@[j] <==> queue@.contains(j as usize)),
                forall|k: int| 0 <= k < queue@.len() ==> queue@[k] < n,
                forall|k: int| 0 <= k < queue@.len() ==> ireached(g, sources@, queue@[k] as int, None),
                forall|k: int| 0 <= k < sources@.len() ==> visited@[sources@[k] as int],
                forall|k: int, t2: int| 0 <= k < q && 0 <= t2 < g[queue@[k] as int].len() ==> visited@[#[trigger] g[queue@[k] as int][t2] as int],
                forall|t2: int| 0 <= t2 < t ==> visited@[#[trigger] g[u as int][t2] as int],
                count_false(visited@) + (queue@.len() - qlen0) <= cf0,
                queue@.len() > qlen0 ==> count_false(visited@) < cf0,
            decreases nbrs@.len() - t,
        {
            let w = nbrs[t];
            assert(w == g[u as int][t as int]);
            if !visited[w] {
                proof {
                    lemma_count_false_set(visited@, w as int);
                    let (k0, n0) = choose|k0: int, n0: nat| 0 <= k0 < sources@.len() && #[trigger] ireach(g, sources@[k0] as int, u as int, n0);
                    assert(g[u as int].contains(w));
                    lemma_ireach_extend(g, sources@[k0] as int, u as int, w as int, n0);
                }
                let ghost q0 = queue@;
                let ghost v0 = visited@;
                visited.set(w, true);
                queue.push(w);
                proof {
                    lemma_push_contains(q0, w);
                }
                assert forall|j: int| 0 <= j < n implies (visited@[j] <==> queue@.contains(j as usize)) by {
                    if j != w {
                        assert(visited@[j] == v0[j]);
                    }
                }
                assert forall|x: int| 0 <= x < n && #[trigger] v0[x] implies visited@[x] by {
                    if x != w {
                        assert(visited@[x] == v0[x]);
                    }
                }
            }
            t = t + 1;
        }
        q = q + 1;
    }
    proof {
        let vs = visited@;
        assert forall|j: int| 0 <= j < n implies (vs[j] <==> ireached(g, sources@, j, None)) by {
            if vs[j] {
                let k = choose|k: int| 0 <= k < queue@.len() && queue@[k] == j as usize;
            }
            if ireached(g, sources@, j, None) {
                let (k, m) = choose|k: int, m: nat| 0 <= k < sources@.len() && #[trigger] ireach(g, sources@[k] as int, j, m);
                lemma_closed_reach(g, vs, sources@[k] as int, j, m);
            }
        }
    }
    visited
}

/// In a marking that holds the start and is closed under the adjacency lists,
/// everything reached from the start is marked.
proof fn lemma_closed_reach(g: Seq<Seq<usize>>, vs: Seq<bool>, a: int, b: int, m: nat)
    requires
        adj_wf(g),
        vs.len() == g.len(),
        0 <= a < g.len(),
        0 <= b <= usize::MAX,
        g.len() <= usize::MAX,
        vs[a],
        forall|u: int, t: int| 0 <= u < g.len() && vs[u] && 0 <= t < g[u].len() ==> vs[#[trigger] g[u][t] as int],
        ireach(g, a, b, m),
    ensures
        0 <= b < g.len() && vs[b],
    decreases m,
{
    if m == 0 {
        let w = choose|w: Seq<int>| #[trigger] is_iwalk(g, w) && w.len() == m + 1 && w[0] == a && w[m as int] == b;
        assert(w[0] == b);
        assert(a == b);
    } else {
        lemma_ireach_last(g, a, b, (m - 1) as nat);
        let p = choose|p: int| #[trigger] ireach(g, a, p, (m - 1) as nat) && 0 <= p < g.len() && g[p].contains(b as usize);
        lemma_closed_reach(g, vs, a, p, (m - 1) as nat);
        let t = choose|t: int| 0 <= t < g[p].len() && g[p][t] == b as usize;
        assert(vs[g[p][t] as int]);
    }
}

} // verus!

verus! {

/// Whether one of the first `k` edges (of the kind considered) leads from `a` to `b`.
pub open spec fn step_before(edges: Seq<EdgeV>, calls_only: bool, a: Seq<char>, b: Seq<char>, k: int) -> bool {
    exists|i: int| 0 <= i < k && i < edges.len() && #[trigger] edges[i].from == a && edges[i].to == b && edge_ok(edges[i], calls_only)
}

/// Whether both ends of the edge are among the ids.
pub open spec fn covers(ids: Seq<Seq<char>>, e: EdgeV) -> bool {
    ids.contains(e.from) && ids.contains(e.to)
}

/// Where a string first stands in a list of strings.
pub fn index_of(ids: &Vec<String>, s: &String) -> (r: Option<usize>)
    ensures
        r matches Some(k) ==> k < ids@.len() && ids.deep_view()[k as int] == s@
            && forall|j: int| 0 <= j < k ==> #[trigger] ids.deep_view()[j] != s@,
        r is None ==> !ids.deep_view().contains(s@),
{
    let mut i: usize = 0;
    while i < ids.len()
        invariant
            i <= ids@.len(),
            forall|j: int| 0 <= j < i ==> ids.deep_view()[j] != s@,
        decreases ids@.len() - i,
    {
        if same_text(&ids[i], s) {
            return Some(i);
        }
        i = i + 1;
    }
    proof {
        if ids.deep_view().contains(s@) {
            let j = choose|j: int| 0 <= j < ids.deep_view().len() && ids.deep_view()[j] == s@;
        }
    }
    None
}

/// Whether no string occurs twice.
pub open spec fn distinct(ids: Seq<Seq<char>>) -> bool {
    forall|a: int, b: int| 0 <= a < ids.len() && 0 <= b < ids.len() && ids[a] == ids[b] ==> a == b
}

fn add_id(ids: &mut Vec<String>, s: &String)
    requires
        distinct(old(ids).deep_view()),
    ensures
        distinct(final(ids).deep_view()),
        final(ids).deep_view().contains(s@),
        forall|t: Seq<char>| old(ids).deep_view().contains(t) ==> final(ids).deep_view().contains(t),
        forall|t: Seq<char>| final(ids).deep_view().contains(t) ==> old(ids).deep_view().contains(t) || t == s@,
{
    let ghost d0 = ids.deep_view();
    match index_of(ids, s) {
        Some(k) => {}
        None => {
            let ghost v0 = ids@;
            ids.push(copy_string(s));
            let ghost d1 = ids.deep_view();
            assert(d1 =~= d0.push(s@)) by {
                assert forall|j: int| 0 <= j < d0.len() implies d1[j] == d0[j] by {
                    assert(ids@[j] == v0[j]);
                }
            }
            assert(d1[d0.len() as int] == s@);
            assert forall|t: Seq<char>| d0.contains(t) implies d1.contains(t) by {
                let j = choose|j: int| 0 <= j < d0.len() && d0[j] == t;
                assert(d1[j] == t);
            }
            assert forall|t: Seq<char>| d1.contains(t) implies d0.contains(t) || t == s@ by {
                let j = choose|j: int| 0 <= j < d1.len() && d1[j] == t;
                if j < d0.len() {
                    assert(d0[j] == t);
                }
            }
        }
    }
}

/// An indexed copy of the graph: each id once, with the ids that each one leads to
/// and is reached from, by the edges of the kind considered.
pub struct IdGraph {
    pub ids: Vec<String>,
    pub succ: Vec<Vec<usize>>,
    pub pred: Vec<Vec<usize>>,
}

impl IdGraph {
    /// The ids, as plain values.
    pub open spec fn idv(&self) -> Seq<Seq<char>> {
        self.ids.deep_view()
    }

    /// Whether each id occurs once.
    pub open spec fn wf_ids(&self) -> bool {
        self.ids@.len() == self.idv().len() && distinct(self.idv())
    }

    /// Whether this indexed copy matches the edges.
    pub open spec fn wf(&self, edges: Seq<EdgeV>, co: bool) -> bool {
        let ids = self.idv();
        let n = ids.len();
        &&& self.ids@.len() == n
        &&& self.succ@.len() == n
        &&& self.pred@.len() == n
        &&& adj_wf(adj_v(self.succ@))
        &&& adj_wf(adj_v(self.pred@))
        &&& distinct(ids)
        &&& forall|u: int, j: int| 0 <= u < n && 0 <= j < n ==>
            (#[trigger] adj_v(self.succ@)[u].contains(j as usize) <==> step(edges, co, ids[u], ids[j]))
        &&& forall|u: int, j: int| 0 <= u < n && 0 <= j < n ==>
            (#[trigger] adj_v(self.pred@)[u].contains(j as usize) <==> step(edges, co, ids[j], ids[u]))
        &&& forall|i: int| 0 <= i < edges.len() && edge_ok(edges[i], co) ==>
            covers(ids, #[trigger] edges[i])
    }
}

/// Whether the adjacency entry `(a, j)` matches one of the first `k` edges, read forwards
/// (`a` leads to `j`) or backwards (`j` leads to `a`).
pub open spec fn rel_before(ev: Seq<EdgeV>, co: bool, idv: Seq<Seq<char>>, a: int, j: int, k: int, back: bool) -> bool {
    if back { step_before(ev, co, idv[j], idv[a], k) } else { step_before(ev, co, idv[a], idv[j], k) }
}

/// Adding the entry of edge `k` to the adjacency lists keeps them matched to the edges.
proof fn lemma_adj_push(ev: Seq<EdgeV>, co: bool, idv: Seq<Seq<char>>, s0: Seq<Seq<usize>>, s1: Seq<Seq<usize>>, u: int, v: int, k: int, back: bool)
    requires
        distinct(idv),
        idv.len() <= usize::MAX,
        s0.len() == idv.len(),
        0 <= u < idv.len(),
        0 <= v < idv.len(),
        v <= usize::MAX,
        s1 == s0.update(u, s0[u].push(v as usize)),
        0 <= k < ev.len(),
        edge_ok(ev[k], co),
        back ==> ev[k].from == idv[v] && ev[k].to == idv[u],
        !back ==> ev[k].from == idv[u] && ev[k].to == idv[v],
        forall|a: int, j: int| 0 <= a < idv.len() && 0 <= j < idv.len() ==>
            (#[trigger] s0[a].contains(j as usize) <==> rel_before(ev, co, idv, a, j, k, back)),
    ensures
        forall|a: int, j: int| 0 <= a < idv.len() && 0 <= j < idv.len() ==>
            (#[trigger] s1[a].contains(j as usize) <==> rel_before(ev, co, idv, a, j, k + 1, back)),
{
    lemma_push_contains(s0[u], v as usize);
    assert forall|a: int, j: int| 0 <= a < idv.len() && 0 <= j < idv.len() implies
        (#[trigger] s1[a].contains(j as usize) <==> rel_before(ev, co, idv, a, j, k + 1, back)) by {
        assert(s0[a].contains(j as usize) <==> rel_before(ev, co, idv, a, j, k, back));
        if rel_before(ev, co, idv, a, j, k, back) {
            if back {
                let i2 = choose|i2: int| 0 <= i2 < k && i2 < ev.len() && #[trigger] ev[i2].from == idv[j] && ev[i2].to == idv[a] && edge_ok(ev[i2], co);
                assert(ev[i2].from == idv[j]);
            } else {
                let i2 = choose|i2: int| 0 <= i2 < k && i2 < ev.len() && #[trigger] ev[i2].from == idv[a] && ev[i2].to == idv[j] && edge_ok(ev[i2], co);
                assert(ev[i2].from == idv[a]);
            }
        }
        if rel_before(ev, co, idv, a, j, k + 1, back) && !rel_before(ev, co, idv, a, j, k, back) {
            if back {
                let i2 = choose|i2: int| 0 <= i2 < k + 1 && i2 < ev.len() && #[trigger] ev[i2].from == idv[j] && ev[i2].to == idv[a] && edge_ok(ev[i2], co);
                if i2 < k {
                    assert(ev[i2].from == idv[j]);
                }
                assert(i2 == k);
                assert(idv[j] == idv[v] && idv[a] == idv[u]);
            } else {
                let i2 = choose|i2: int| 0 <= i2 < k + 1 && i2 < ev.len() && #[trigger] ev[i2].from == idv[a] && ev[i2].to == idv[j] && edge_ok(ev[i2], co);
                if i2 < k {
                    assert(ev[i2].from == idv[a]);
                }
                assert(i2 == k);
                assert(idv[a] == idv[u] && idv[j] == idv[v]);
            }
            assert(a == u && j == v);
        }
        if a == u && j == v {
            assert(ev[k].from == ev[k].from);
            assert(rel_before(ev, co, idv, a, j, k + 1, back));
        }
        if a != u {
            assert(s1[a] == s0[a]);
        }
    }
}

/// Skipping edge `k` (not of the kind considered) keeps the adjacency lists matched.
proof fn lemma_adj_skip(ev: Seq<EdgeV>, co: bool, idv: Seq<Seq<char>>, s0: Seq<Seq<usize>>, k: int, back: bool)
    requires
        idv.len() <= usize::MAX,
        0 <= k < ev.len(),
        !edge_ok(ev[k], co),
        forall|a: int, j: int| 0 <= a < idv.len() && 0 <= j < idv.len() ==>
            (#[trigger] s0[a].contains(j as usize) <==> rel_before(ev, co, idv, a, j, k, back)),
    ensures
        forall|a: int, j: int| 0 <= a < idv.len() && 0 <= j < idv.len() ==>
            (#[trigger] s0[a].contains(j as usize) <==> rel_before(ev, co, idv, a, j, k + 1, back)),
{
    assert forall|a: int, j: int| 0 <= a < idv.len() && 0 <= j < idv.len() implies
        (#[trigger] s0[a].contains(j as usize) <==> rel_before(ev, co, idv, a, j, k + 1, back)) by {
        assert(s0[a].contains(j as usize) <==> rel_before(ev, co, idv, a, j, k, back));
        if rel_before(ev, co, idv, a, j, k, back) {
            if back {
                let i2 = choose|i2: int| 0 <= i2 < k && i2 < ev.len() && #[trigger] ev[i2].from == idv[j] && ev[i2].to == idv[a] && edge_ok(ev[i2], co);
                assert(ev[i2].from == idv[j]);
            } else {
                let i2 = choose|i2: int| 0 <= i2 < k && i2 < ev.len() && #[trigger] ev[i2].from == idv[a] && ev[i2].to == idv[j] && edge_ok(ev[i2], co);
                assert(ev[i2].from == idv[a]);
            }
        }
        if rel_before(ev, co, idv, a, j, k + 1, back) {
            if back {
                let i2 = choose|i2: int| 0 <= i2 < k + 1 && i2 < ev.len() && #[trigger] ev[i2].from == idv[j] && ev[i2].to == idv[a] && edge_ok(ev[i2], co);
                assert(i2 != k);
                assert(ev[i2].from == idv[j]);
            } else {
                let i2 = choose|i2: int| 0 <= i2 < k + 1 && i2 < ev.len() && #[trigger] ev[i2].from == idv[a] && ev[i2].to == idv[j] && edge_ok(ev[i2], co);
                assert(i2 != k);
                assert(ev[i2].from == idv[a]);
            }
        }
    }
}

/// Builds the indexed copy of the graph, holding at least the given ids.
pub fn build_id_graph(edges: &Vec<Edge>, co: bool, seeds: &Vec<String>) -> (g: IdGraph)
    ensures
        g.wf(crate::ir::edges_v(edges@), co),
        forall|k: int| 0 <= k < seeds@.len() ==> g.idv().contains(seeds.deep_view()[k]),
{
    let ghost ev = crate::ir::edges_v(edges@);
    let mut ids: Vec<String> = Vec::new();
    let mut k: usize = 0;
    while k < seeds.len()
        invariant
            k <= seeds@.len(),
            distinct(ids.deep_view()),
            forall|k2: int| 0 <= k2 < k ==> ids.deep_view().contains(seeds.deep_view()[k2]),
        decreases seeds@.len() - k,
    {
        let ghost d0 = ids.deep_view();
        add_id(&mut ids, &seeds[k]);
        assert forall|k2: int| 0 <= k2 < k + 1 implies ids.deep_view().contains(seeds.deep_view()[k2]) by {
            if k2 < k {
                assert(d0.contains(seeds.deep_view()[k2]));
            }
        }
        k = k + 1;
    }
    let mut i: usize = 0;
    while i < edges.len()
        invariant
            ev == crate::ir::edges_v(edges@),
            i <= edges@.len(),
            distinct(ids.deep_view()),
            forall|k2: int| 0 <= k2 < seeds@.len() ==> ids.deep_view().contains(seeds.deep_view()[k2]),
            forall|i2: int| 0 <= i2 < i && edge_ok(ev[i2], co) ==>
                covers(ids.deep_view(), #[trigger] ev[i2]),
        decreases edges@.len() - i,
    {
        let e = &edges[i];
        assert(ev[i as int] == e@);
        if !co || e.kind == EdgeKind::Calls {
            let ghost d0 = ids.deep_view();
            add_id(&mut ids, &e.from_id);
            let ghost d1 = ids.deep_view();
            add_id(&mut ids, &e.to_id);
            let ghost d2 = ids.deep_view();
            assert forall|k2: int| 0 <= k2 < seeds@.len() implies d2.contains(seeds.deep_view()[k2]) by {
                assert(d0.contains(seeds.deep_view()[k2]));
                assert(d1.contains(seeds.deep_view()[k2]));
            }
            assert forall|i2: int| 0 <= i2 < i + 1 && edge_ok(ev[i2], co) implies
                covers(d2, #[trigger] ev[i2]) by {
                if i2 < i {
                    assert(covers(d0, ev[i2]));
                    assert(d1.contains(ev[i2].from) && d1.contains(ev[i2].to));
                } else {
                    assert(d1.contains(e.from_id@));
                }
            }
        }
        i = i + 1;
    }
    let n = ids.len();
    let ghost idv = ids.deep_view();
    assert(i == edges@.len());
    assert forall|i2: int| 0 <= i2 < edges@.len() && edge_ok(ev[i2], co) implies
        covers(idv, #[trigger] ev[i2]) by {
        assert(i2 < i);
    }
    let mut succ: Vec<Vec<usize>> = Vec::new();
    let mut pred: Vec<Vec<usize>> = Vec::new();
    let mut k: usize = 0;
    while k < n
        invariant
            k <= n,
            succ@.len() == k,
            pred@.len() == k,
            forall|u: int| 0 <= u < k ==> succ@[u]@.len() == 0 && pred@[u]@.len() == 0,
        decreases n - k,
    {
        succ.push(Vec::new());
        pred.push(Vec::new());
        k = k + 1;
    }
    assert forall|a: int, j: int| 0 <= a < n && 0 <= j < n implies
        (#[trigger] adj_v(succ@)[a].contains(j as usize) <==> rel_before(ev, co, idv, a, j, 0, false)) by {
        assert(adj_v(succ@)[a] == succ@[a]@);
    }
    assert forall|a: int, j: int| 0 <= a < n && 0 <= j < n implies
        (#[trigger] adj_v(pred@)[a].contains(j as usize) <==> rel_before(ev, co, idv, a, j, 0, true)) by {
        assert(adj_v(pred@)[a] == pred@[a]@);
    }
    let mut i: usize = 0;
    while i < edges.len()
        invariant
            ev == crate::ir::edges_v(edges@),
            i <= edges@.len(),
            n == ids@.len(),
            idv == ids.deep_view(),
            distinct(idv),
            succ@.len() == n,
            pred@.len() == n,
            forall|k2: int| 0 <= k2 < seeds@.len() ==> idv.contains(seeds.deep_view()[k2]),
            forall|i2: int| 0 <= i2 < edges@.len() && edge_ok(ev[i2], co) ==>
                covers(idv, #[trigger] ev[i2]),
            adj_wf(adj_v(succ@)),
            adj_wf(adj_v(pred@)),
            forall|a: int, j: int| 0 <= a < n && 0 <= j < n ==>
                (#[trigger] adj_v(succ@)[a].contains(j as usize) <==> rel_before(ev, co, idv, a, j, i as int, false)),
            forall|a: int, j: int| 0 <= a < n && 0 <= j < n ==>
                (#[trigger] adj_v(pred@)[a].contains(j as usize) <==> rel_before(ev, co, idv, a, j, i as int, true)),
        decreases edges@.len() - i,
    {
        let e = &edges[i];
        assert(ev[i as int] == e@);
        if !co || e.kind == EdgeKind::Calls {
            assert(edge_ok(ev[i as int], co));
            assert(covers(idv, ev[i as int]));
            let iu = index_of(&ids, &e.from_id);
            let iv = index_of(&ids, &e.to_id);
            match (iu, iv) {
                (Some(u), Some(v)) => {
                    let ghost s0 = adj_v(succ@);
                    let ghost p0 = adj_v(pred@);
                    succ[u].push(v);
                    pred[v].push(u);
                    assert(adj_v(succ@) =~= s0.update(u as int, s0[u as int].push(v)));
                    assert(adj_v(pred@) =~= p0.update(v as int, p0[v as int].push(u)));
                    proof {
                        lemma_adj_push(ev, co, idv, s0, adj_v(succ@), u as int, v as int, i as int, false);
                        lemma_adj_push(ev, co, idv, p0, adj_v(pred@), v as int, u as int, i as int, true);
                    }
                    assert(adj_wf(adj_v(succ@))) by {
                        assert forall|a: int, t: int| 0 <= a < n && 0 <= t < adj_v(succ@)[a].len() implies
                            (#[trigger] adj_v(succ@)[a][t]) < n by {
                            if a == u && t < s0[a].len() {
                                assert(adj_v(succ@)[a][t] == s0[a][t]);
                            }
                        }
                    }
                    assert(adj_wf(adj_v(pred@))) by {
                        assert forall|a: int, t: int| 0 <= a < n && 0 <= t < adj_v(pred@)[a].len() implies
                            (#[trigger] adj_v(pred@)[a][t]) < n by {
                            if a == v && t < p0[a].len() {
                                assert(adj_v(pred@)[a][t] == p0[a][t]);
                            }
                        }
                    }
                },
                _ => {
                    assert(false);
                },
            }
        } else {
            proof {
                lemma_adj_skip(ev, co, idv, adj_v(succ@), i as int, false);
                lemma_adj_skip(ev, co, idv, adj_v(pred@), i as int, true);
            }
        }
        i = i + 1;
    }
    let g = IdGraph { ids, succ, pred };
    assert forall|u: int, j: int| 0 <= u < n && 0 <= j < n implies
        (#[trigger] adj_v(g.succ@)[u].contains(j as usize) <==> step(ev, co, idv[u], idv[j])) by {
        assert(adj_v(g.succ@)[u].contains(j as usize) <==> rel_before(ev, co, idv, u, j, ev.len() as int, false));
        if step(ev, co, idv[u], idv[j]) {
            let i2 = choose|i2: int| 0 <= i2 < ev.len() && #[trigger] ev[i2].from == idv[u] && ev[i2].to == idv[j] && edge_ok(ev[i2], co);
            assert(ev[i2].from == idv[u]);
        }
        if rel_before(ev, co, idv, u, j, ev.len() as int, false) {
            let i2 = choose|i2: int| 0 <= i2 < ev.len() && i2 < ev.len() && #[trigger] ev[i2].from == idv[u] && ev[i2].to == idv[j] && edge_ok(ev[i2], co);
            assert(ev[i2].from == idv[u]);
        }
    }
    assert forall|u: int, j: int| 0 <= u < n && 0 <= j < n implies
        (#[trigger] adj_v(g.pred@)[u].contains(j as usize) <==> step(ev, co, idv[j], idv[u])) by {
        assert(adj_v(g.pred@)[u].contains(j as usize) <==> rel_before(ev, co, idv, u, j, ev.len() as int, true));
        if step(ev, co, idv[j], idv[u]) {
            let i2 = choose|i2: int| 0 <= i2 < ev.len() && #[trigger] ev[i2].from == idv[j] && ev[i2].to == idv[u] && edge_ok(ev[i2], co);
            assert(ev[i2].from == idv[j]);
        }
        if rel_before(ev, co, idv, u, j, ev.len() as int, true) {
            let i2 = choose|i2: int| 0 <= i2 < ev.len() && i2 < ev.len() && #[trigger] ev[i2].from == idv[j] && ev[i2].to == idv[u] && edge_ok(ev[i2], co);
            assert(ev[i2].from == idv[j]);
        }
    }
    g
}


/// A walk over indices of a well-formed indexed copy is a walk over the ids.
proof fn lemma_ireach_to_reach(g: IdGraph, ev: Seq<EdgeV>, co: bool, a: int, b: int, n: nat)
    requires
        g.wf(ev, co),
        0 <= a < g.idv().len(),
        0 <= b < g.idv().len(),
        ireach(adj_v(g.succ@), a, b, n),
    ensures
        reach_in(ev, co, g.idv()[a], g.idv()[b], n),
    decreases n,
{
    let adj = adj_v(g.succ@);
    if n == 0 {
        let w = choose|w: Seq<int>| #[trigger] is_iwalk(adj, w) && w.len() == n + 1 && w[0] == a && w[n as int] == b;
        assert(w[0] == b);
        lemma_reach_zero(ev, co, g.idv()[a]);
    } else {
        let m = (n - 1) as nat;
        lemma_ireach_last(adj, a, b, m);
        let p = choose|p: int| #[trigger] ireach(adj, a, p, m) && 0 <= p < adj.len() && adj[p].contains(b as usize);
        lemma_ireach_to_reach(g, ev, co, a, p, m);
        assert(adj[p].contains(b as usize));
        assert(step(ev, co, g.idv()[p], g.idv()[b]));
        lemma_reach_split(ev, co, g.idv()[a], g.idv()[b], m);
    }
}

/// A walk over the ids from an indexed id, of one edge at least or back to itself,
/// is a walk over the indices.
proof fn lemma_reach_to_ireach(g: IdGraph, ev: Seq<EdgeV>, co: bool, a: int, x: Seq<char>, n: nat)
    requires
        g.wf(ev, co),
        0 <= a < g.idv().len(),
        reach_in(ev, co, g.idv()[a], x, n),
    ensures
        exists|b: int| 0 <= b < g.idv().len() && g.idv()[b] == x && #[trigger] ireach(adj_v(g.succ@), a, b, n),
    decreases n,
{
    let adj = adj_v(g.succ@);
    let ids = g.idv();
    if n == 0 {
        let w = choose|w: Seq<Seq<char>>| #[trigger] is_walk(ev, co, w) && w.len() == n + 1 && w[0] == ids[a] && w[n as int] == x;
        assert(w[0] == x);
        lemma_ireach_zero(adj, a);
    } else {
        let m = (n - 1) as nat;
        lemma_reach_split(ev, co, ids[a], x, m);
        let y = choose|y: Seq<char>| #[trigger] reach_in(ev, co, ids[a], y, m) && step(ev, co, y, x);
        lemma_reach_to_ireach(g, ev, co, a, y, m);
        let c = choose|c: int| 0 <= c < ids.len() && ids[c] == y && #[trigger] ireach(adj, a, c, m);
        let i = choose|i: int| 0 <= i < ev.len() && #[trigger] ev[i].from == y && ev[i].to == x && edge_ok(ev[i], co);
        assert(covers(ids, ev[i]));
        let b = choose|b: int| 0 <= b < ids.len() && ids[b] == x;
        assert(adj[c].contains(b as usize));
        lemma_ireach_extend(adj, a, c, b, m);
    }
}

/// Whether index `j` is reached from one of the `sources` in at most `d` steps
/// (any number when `d` is `None`), counted by the ids.
pub open spec fn reached_from(ev: Seq<EdgeV>, co: bool, roots: Seq<Seq<char>>, x: Seq<char>, d: Option<nat>) -> bool {
    exists|k: int, n: nat| 0 <= k < roots.len() && (d is None || n <= d->0) && #[trigger] reach_in(ev, co, roots[k], x, n)
}

/// The ids at the given indices.
pub open spec fn ids_at(ids: Seq<Seq<char>>, idx: Seq<usize>) -> Seq<Seq<char>> {
    idx.map_values(|s: usize| ids[s as int])
}

/// Reaching over indices and reaching over ids agree, from indexed sources.
pub proof fn lemma_ireached_iff(g: IdGraph, ev: Seq<EdgeV>, co: bool, sources: Seq<usize>, d: Option<nat>)
    requires
        g.wf(ev, co),
        forall|k: int| 0 <= k < sources.len() ==> sources[k] < g.idv().len(),
    ensures
        forall|j: int| 0 <= j < g.idv().len() ==>
            (ireached(adj_v(g.succ@), sources, j, d) <==>
             #[trigger] reached_from(ev, co, ids_at(g.idv(), sources), g.idv()[j], d)),
        forall|x: Seq<char>| #[trigger] reached_from(ev, co, ids_at(g.idv(), sources), x, d) ==> g.idv().contains(x),
{
    let adj = adj_v(g.succ@);
    let ids = g.idv();
    let roots = ids_at(ids, sources);
    assert forall|j: int| 0 <= j < ids.len() implies
        (ireached(adj, sources, j, d) <==> #[trigger] reached_from(ev, co, roots, ids[j], d)) by {
        if ireached(adj, sources, j, d) {
            let (k, n) = choose|k: int, n: nat| 0 <= k < sources.len() && (d is None || n <= d->0) && #[trigger] ireach(adj, sources[k] as int, j, n);
            lemma_ireach_to_reach(g, ev, co, sources[k] as int, j, n);
            assert(roots[k] == ids[sources[k] as int]);
            assert(reach_in(ev, co, roots[k], ids[j], n));
        }
        if reached_from(ev, co, roots, ids[j], d) {
            let (k, n) = choose|k: int, n: nat| 0 <= k < roots.len() && (d is None || n <= d->0) && #[trigger] reach_in(ev, co, roots[k], ids[j], n);
            assert(roots[k] == ids[sources[k] as int]);
            lemma_reach_to_ireach(g, ev, co, sources[k] as int, ids[j], n);
            let b = choose|b: int| 0 <= b < ids.len() && ids[b] == ids[j] && #[trigger] ireach(adj, sources[k] as int, b, n);
            assert(b == j);
        }
    }
    assert forall|x: Seq<char>| #[trigger] reached_from(ev, co, roots, x, d) implies ids.contains(x) by {
        let (k, n) = choose|k: int, n: nat| 0 <= k < roots.len() && (d is None || n <= d->0) && #[trigger] reach_in(ev, co, roots[k], x, n);
        assert(roots[k] == ids[sources[k] as int]);
        lemma_reach_to_ireach(g, ev, co, sources[k] as int, x, n);
        let b = choose|b: int| 0 <= b < ids.len() && ids[b] == x && #[trigger] ireach(adj, sources[k] as int, b, n);
        assert(ids[b] == x);
    }
}

/// Marks every index reached from `sources` in at most `depth` steps of the adjacency lists.
pub fn explore_within(adj: &Vec<Vec<usize>>, sources: &Vec<usize>, depth: usize) -> (visited: Vec<bool>)
    requires
        adj_wf(adj_v(adj@)),
        forall|k: int| 0 <= k < sources@.len() ==> sources@[k] < adj@.len(),
    ensures
        visited@.len() == adj@.len(),
        forall|j: int| 0 <= j < adj@.len() ==> (visited@[j] <==> ireached(adj_v(adj@), sources@, j, Some(depth as nat))),
{
    let ghost g = adj_v(adj@);
    let n = adj.len();
    let mut visited = all_false(n);
    let mut i: usize = 0;
    while i < sources.len()
        invariant
            g == adj_v(adj@),
            n == adj@.len(),
            i <= sources@.len(),
            forall|k: int| 0 <= k < sources@.len() ==> sources@[k] < n,
            visited@.len() == n,
            forall|j: int| 0 <= j < n ==> (visited@[j] <==> exists|k: int| 0 <= k < i && sources@[k] == j),
        decreases sources@.len() - i,
    {
        let ghost v0 = visited@;
        visited.set(sources[i], true);
        assert forall|j: int| 0 <= j < n implies (visited@[j] <==> exists|k: int| 0 <= k < i + 1 && sources@[k] == j) by {
            if j != sources@[i as int] {
                assert(visited@[j] == v0[j]);
                if exists|k: int| 0 <= k < i + 1 && sources@[k] == j {
                    let k = choose|k: int| 0 <= k < i + 1 && sources@[k] == j;
                    assert(k < i);
                }
            } else {
                assert(sources@[i as int] == j);
            }
        }
        i = i + 1;
    }
    assert forall|j: int| 0 <= j < n implies (visited@[j] <==> ireached(g, sources@, j, Some(0nat))) by {
        if visited@[j] {
            let k = choose|k: int| 0 <= k < sources@.len() && sources@[k] == j;
            lemma_ireach_zero(g, j);
            assert(ireach(g, sources@[k] as int, j, 0));
        }
        if ireached(g, sources@, j, Some(0nat)) {
            let (k, m) = choose|k: int, m: nat| 0 <= k < sources@.len() && m <= 0 && #[trigger] ireach(g, sources@[k] as int, j, m);
            let w = choose|w: Seq<int>| #[trigger] is_iwalk(g, w) && w.len() == m + 1 && w[0] == sources@[k] as int && w[m as int] == j;
            assert(w[0] == j);
        }
    }
    let mut d: usize = 0;
    let mut changed = true;
    while d < depth && changed
        invariant
            g == adj_v(adj@),
            adj_wf(g),
            n == adj@.len(),
            d <= depth,
            forall|k: int| 0 <= k < sources@.len() ==> sources@[k] < n,
            visited@.len() == n,
            forall|j: int| 0 <= j < n ==> (visited@[j] <==> ireached(g, sources@, j, Some(d as nat))),
            !changed ==> forall|u: int, t: int| 0 <= u < n && visited@[u] && 0 <= t < g[u].len() ==> visited@[#[trigger] g[u][t] as int],
        decreases depth - d,
    {
        let snapshot = visited.clone();
        assert(snapshot@ == visited@);
        let mut grew = false;
        let mut u: usize = 0;
        while u < n
            invariant
                g == adj_v(adj@),
                adj_wf(g),
                n == adj@.len(),
                u <= n,
                d < depth,
                snapshot@.len() == n,
                visited@.len() == n,
                forall|k: int| 0 <= k < sources@.len() ==> sources@[k] < n,
                forall|j: int| 0 <= j < n ==> (snapshot@[j] <==> ireached(g, sources@, j, Some(d as nat))),
                forall|j: int| 0 <= j < n ==> (visited@[j] <==> (snapshot@[j] || exists|u2: int, t: int|
                    0 <= u2 < u && snapshot@[u2] && 0 <= t < g[u2].len() && #[trigger] g[u2][t] == j)),
                !grew ==> visited@ == snapshot@,
            decreases n - u,
        {
            if snapshot[u] {
                let nbrs = &adj[u];
                assert(nbrs@ == g[u as int]);
                let mut t: usize = 0;
                while t < nbrs.len()
                    invariant
                        g == adj_v(adj@),
                        adj_wf(g),
                        n == adj@.len(),
                        u < n,
                        snapshot@[u as int],
                        nbrs@ == g[u as int],
                        t <= nbrs@.len(),
                        snapshot@.len() == n,
                        visited@.len() == n,
                        forall|j: int| 0 <= j < n ==> (visited@[j] <==> (snapshot@[j] || exists|u2: int, t2: int|
                            0 <= u2 < u && snapshot@[u2] && 0 <= t2 < g[u2].len() && #[trigger] g[u2][t2] == j)
                            || exists|t2: int| 0 <= t2 < t && #[trigger] g[u as int][t2] == j),
                        !grew ==> visited@ == snapshot@,
                    decreases nbrs@.len() - t,
                {
                    let w = nbrs[t];
                    assert(w == g[u as int][t as int]);
                    if !visited[w] {
                        let ghost v0 = visited@;
                        visited.set(w, true);
                        grew = true;
                        assert forall|j: int| 0 <= j < n implies (visited@[j] <==> (snapshot@[j] || exists|u2: int, t2: int|
                            0 <= u2 < u && snapshot@[u2] && 0 <= t2 < g[u2].len() && #[trigger] g[u2][t2] == j)
                            || exists|t2: int| 0 <= t2 < t + 1 && #[trigger] g[u as int][t2] == j) by {
                            if j != w {
                                assert(visited@[j] == v0[j]);
                                if exists|t2: int| 0 <= t2 < t + 1 && #[trigger] g[u as int][t2] == j {
                                    let t2 = choose|t2: int| 0 <= t2 < t + 1 && #[trigger] g[u as int][t2] == j;
                                    assert(t2 < t);
                                }
                            } else {
                                assert(g[u as int][t as int] == j);
                            }
                        }
                    } else {
                        assert forall|j: int| 0 <= j < n implies (visited@[j] <==> (snapshot@[j] || exists|u2: int, t2: int|
                            0 <= u2 < u && snapshot@[u2] && 0 <= t2 < g[u2].len() && #[trigger] g[u2][t2] == j)
                            || exists|t2: int| 0 <= t2 < t + 1 && #[trigger] g[u as int][t2] == j) by {
                            if exists|t2: int| 0 <= t2 < t + 1 && #[trigger] g[u as int][t2] == j {
                                let t2 = choose|t2: int| 0 <= t2 < t + 1 && #[trigger] g[u as int][t2] == j;
                                if t2 == t {
                                    assert(j == w);
                                }
                            }
                        }
                    }
                    t = t + 1;
                }
                assert forall|j: int| 0 <= j < n implies (visited@[j] <==> (snapshot@[j] || exists|u2: int, t2: int|
                    0 <= u2 < u + 1 && snapshot@[u2] && 0 <= t2 < g[u2].len() && #[trigger] g[u2][t2] == j)) by {
                    if exists|t2: int| 0 <= t2 < g[u as int].len() && #[trigger] g[u as int][t2] == j {
                        let t2 = choose|t2: int| 0 <= t2 < g[u as int].len() && #[trigger] g[u as int][t2] == j;
                        assert(g[u as int][t2] == j);
                    }
                    if exists|u2: int, t2: int| 0 <= u2 < u + 1 && snapshot@[u2] && 0 <= t2 < g[u2].len() && #[trigger] g[u2][t2] == j {
                        let (u2, t2) = choose|u2: int, t2: int| 0 <= u2 < u + 1 && snapshot@[u2] && 0 <= t2 < g[u2].len() && #[trigger] g[u2][t2] == j;
                        if u2 < u {
                            assert(g[u2][t2] == j);
                        } else {
                            assert(g[u as int][t2] == j);
                        }
                    }
                }
            } else {
                assert forall|j: int| 0 <= j < n implies (visited@[j] <==> (snapshot@[j] || exists|u2: int, t2: int|
                    0 <= u2 < u + 1 && snapshot@[u2] && 0 <= t2 < g[u2].len() && #[trigger] g[u2][t2] == j)) by {
                    if exists|u2: int, t2: int| 0 <= u2 < u + 1 && snapshot@[u2] && 0 <= t2 < g[u2].len() && #[trigger] g[u2][t2] == j {
                        let (u2, t2) = choose|u2: int, t2: int| 0 <= u2 < u + 1 && snapshot@[u2] && 0 <= t2 < g[u2].len() && #[trigger] g[u2][t2] == j;
                        assert(u2 != u);
                        assert(g[u2][t2] == j);
                    }
                }
            }
            u = u + 1;
        }
        proof {
            lemma_layer_step(g, sources@, snapshot@, visited@, d as nat);
        }
        if !grew {
            assert forall|u2: int, t: int| 0 <= u2 < n && visited@[u2] && 0 <= t < g[u2].len() implies visited@[#[trigger] g[u2][t] as int] by {
                assert(snapshot@[u2]);
                let j = g[u2][t] as int;
                assert(g[u2][t] < n);
                assert(g[u2][t] == j);
            }
        }
        changed = grew;
        d = d + 1;
    }
    proof {
        if d < depth {
            let vs = visited@;
            assert forall|j: int| 0 <= j < n implies (vs[j] <==> ireached(g, sources@, j, Some(depth as nat))) by {
                if vs[j] {
                    let (k, m) = choose|k: int, m: nat| 0 <= k < sources@.len() && m <= d && #[trigger] ireach(g, sources@[k] as int, j, m);
                }
                if ireached(g, sources@, j, Some(depth as nat)) {
                    let (k, m) = choose|k: int, m: nat| 0 <= k < sources@.len() && m <= depth && #[trigger] ireach(g, sources@[k] as int, j, m);
                    let s = sources@[k] as int;
                    assert(vs[s]) by {
                        lemma_ireach_zero(g, s);
                    }
                    lemma_closed_reach(g, vs, s, j, m);
                }
            }
        }
    }
    visited
}

/// One more layer: the marks after relaxing every marked index are those reached in one
/// step more.
proof fn lemma_layer_step(g: Seq<Seq<usize>>, sources: Seq<usize>, before: Seq<bool>, after: Seq<bool>, d: nat)
    requires
        adj_wf(g),
        g.len() <= usize::MAX,
        before.len() == g.len(),
        after.len() == g.len(),
        forall|k: int| 0 <= k < sources.len() ==> sources[k] < g.len(),
        forall|j: int| 0 <= j < g.len() ==> (before[j] <==> ireached(g, sources, j, Some(d))),
        forall|j: int| 0 <= j < g.len() ==> (after[j] <==> (before[j] || exists|u2: int, t: int|
            0 <= u2 < g.len() && before[u2] && 0 <= t < g[u2].len() && #[trigger] g[u2][t] == j)),
    ensures
        forall|j: int| 0 <= j < g.len() ==> (after[j] <==> ireached(g, sources, j, Some(d + 1))),
{
    assert forall|j: int| 0 <= j < g.len() implies (after[j] <==> ireached(g, sources, j, Some(d + 1))) by {
        if after[j] {
            if before[j] {
                let (k, m) = choose|k: int, m: nat| 0 <= k < sources.len() && m <= d && #[trigger] ireach(g, sources[k] as int, j, m);
                assert(ireach(g, sources[k] as int, j, m));
            } else {
                let (u2, t) = choose|u2: int, t: int| 0 <= u2 < g.len() && before[u2] && 0 <= t < g[u2].len() && #[trigger] g[u2][t] == j;
                let (k, m) = choose|k: int, m: nat| 0 <= k < sources.len() && m <= d && #[trigger] ireach(g, sources[k] as int, u2, m);
                assert(g[u2].contains(j as usize)) by {
                    assert(g[u2][t] == j as usize);
                }
                lemma_ireach_extend(g, sources[k] as int, u2, j, m);
            }
        }
        if ireached(g, sources, j, Some(d + 1)) {
            let (k, m) = choose|k: int, m: nat| 0 <= k < sources.len() && m <= d + 1 && #[trigger] ireach(g, sources[k] as int, j, m);
            if m <= d {
                assert(before[j]);
            } else {
                lemma_ireach_last(g, sources[k] as int, j, d);
                let p = choose|p: int| #[trigger] ireach(g, sources[k] as int, p, d) && 0 <= p < g.len() && g[p].contains(j as usize);
                assert(before[p]);
                let t = choose|t: int| 0 <= t < g[p].len() && g[p][t] == j as usize;
                assert(g[p][t] == j);
            }
        }
    }
}


/// Whether the id is in the indexed copy and marked.
pub fn is_marked(g: &IdGraph, visited: &Vec<bool>, x: &String) -> (r: bool)
    requires
        visited@.len() == g.ids@.len(),
        g.wf_ids(),
    ensures
        r <==> exists|j: int| 0 <= j < visited@.len() && g.idv()[j] == x@ && visited@[j],
        r ==> g.idv().contains(x@),
{
    match index_of(&g.ids, x) {
        Some(k) => {
            if visited[k] {
                true
            } else {
                proof {
                    if exists|j: int| 0 <= j < visited@.len() && g.idv()[j] == x@ && visited@[j] {
                        let j = choose|j: int| 0 <= j < visited@.len() && g.idv()[j] == x@ && visited@[j];
                        assert(g.idv()[j] == g.idv()[k as int]);
                    }
                }
                false
            }
        },
        None => {
            proof {
                if exists|j: int| 0 <= j < visited@.len() && g.idv()[j] == x@ && visited@[j] {
                    let j = choose|j: int| 0 <= j < visited@.len() && g.idv()[j] == x@ && visited@[j];
                    assert(g.idv().contains(x@));
                }
            }
            false
        },
    }
}

impl CodeGraph {
    /// Returns every node id reachable from `start_node_id` through `Calls` edges,
    /// the start itself excepted, each once.
    pub fn blast_radius(&self, start_node_id: &str) -> (r: Vec<String>)
        ensures
            distinct(r.deep_view()),
            forall|x: Seq<char>| r.deep_view().contains(x) <==>
                (x != start_node_id@ && reaches(self.ev(), true, start_node_id@, x)),
    {
        let ghost ev = self.ev();
        let start = to_owned_string(start_node_id);
        let mut seeds: Vec<String> = Vec::new();
        seeds.push(copy_string(&start));
        let g = build_id_graph(&self.edges, true, &seeds);
        assert(seeds.deep_view()[0] == start@);
        let s = match index_of(&g.ids, &start) {
            Some(k) => k,
            None => {
                assert(false);
                0
            },
        };
        let mut srcs: Vec<usize> = Vec::new();
        srcs.push(s);
        let visited = explore(&g.succ, &srcs);
        let ghost ids = g.idv();
        proof {
            lemma_ireached_iff(g, ev, true, srcs@, None);
            assert(ids_at(ids, srcs@) =~= seq![start@]);
        }
        let n = g.ids.len();
        let mut out: Vec<String> = Vec::new();
        let mut j: usize = 0;
        while j < n
            invariant
                n == ids.len(),
                n == g.ids@.len(),
                ids == g.idv(),
                distinct(ids),
                s < n,
                ids[s as int] == start@,
                visited@.len() == n,
                j <= n,
                distinct(out.deep_view()),
                forall|x: Seq<char>| out.deep_view().contains(x) <==>
                    exists|j2: int| 0 <= j2 < j && visited@[j2] && j2 != s && #[trigger] ids[j2] == x,
            decreases n - j,
        {
            if visited[j] && j != s {
                let ghost d0 = out.deep_view();
                let c = copy_string(&g.ids[j]);
                out.push(c);
                proof {
                    assert(out.deep_view() =~= d0.push(ids[j as int]));
                    assert forall|a: int, b: int| 0 <= a < out.deep_view().len() && 0 <= b < out.deep_view().len()
                        && out.deep_view()[a] == out.deep_view()[b] implies a == b by {
                        if a < d0.len() && b == d0.len() {
                            assert(d0.contains(d0[a]));
                            let j2 = choose|j2: int| 0 <= j2 < j && visited@[j2] && j2 != s && #[trigger] ids[j2] == d0[a];
                        }
                        if b < d0.len() && a == d0.len() {
                            assert(d0.contains(d0[b]));
                            let j2 = choose|j2: int| 0 <= j2 < j && visited@[j2] && j2 != s && #[trigger] ids[j2] == d0[b];
                        }
                    }
                    assert forall|x: Seq<char>| out.deep_view().contains(x) <==>
                        exists|j2: int| 0 <= j2 < j + 1 && visited@[j2] && j2 != s && #[trigger] ids[j2] == x by {
                        if out.deep_view().contains(x) && x != ids[j as int] {
                            let a = choose|a: int| 0 <= a < out.deep_view().len() && out.deep_view()[a] == x;
                            assert(d0.contains(x)) by { assert(d0[a] == x); }
                        }
                        if exists|j2: int| 0 <= j2 < j + 1 && visited@[j2] && j2 != s && #[trigger] ids[j2] == x {
                            let j2 = choose|j2: int| 0 <= j2 < j + 1 && visited@[j2] && j2 != s && #[trigger] ids[j2] == x;
                            if j2 < j {
                                assert(d0.contains(x));
                                let a = choose|a: int| 0 <= a < d0.len() && d0[a] == x;
                                assert(out.deep_view()[a] == x);
                            } else {
                                assert(out.deep_view()[d0.len() as int] == x);
                            }
                        }
                    }
                }
            } else {
                assert forall|x: Seq<char>| out.deep_view().contains(x) <==>
                    exists|j2: int| 0 <= j2 < j + 1 && visited@[j2] && j2 != s && #[trigger] ids[j2] == x by {
                    if exists|j2: int| 0 <= j2 < j + 1 && visited@[j2] && j2 != s && #[trigger] ids[j2] == x {
                        let j2 = choose|j2: int| 0 <= j2 < j + 1 && visited@[j2] && j2 != s && #[trigger] ids[j2] == x;
                        assert(j2 < j);
                    }
                }
            }
            j = j + 1;
        }
        proof {
            let sv = seq![start@];
            assert forall|x: Seq<char>| out.deep_view().contains(x) <==>
                (x != start_node_id@ && reaches(ev, true, start_node_id@, x)) by {
                if out.deep_view().contains(x) {
                    let j2 = choose|j2: int| 0 <= j2 < n && visited@[j2] && j2 != s && #[trigger] ids[j2] == x;
                    assert(reached_from(ev, true, ids_at(ids, srcs@), ids[j2], None));
                    let (k, m) = choose|k: int, m: nat| 0 <= k < sv.len() && (None::<nat> is None || m <= 0) && #[trigger] reach_in(ev, true, sv[k], x, m);
                    assert(reach_in(ev, true, start@, x, m));
                }
                if x != start_node_id@ && reaches(ev, true, start_node_id@, x) {
                    let m = choose|m: nat| reach_in(ev, true, start_node_id@, x, m);
                    assert(reach_in(ev, true, sv[0], x, m));
                    assert(reached_from(ev, true, ids_at(ids, srcs@), x, None));
                    assert(ids.contains(x));
                    let j2 = choose|j2: int| 0 <= j2 < ids.len() && ids[j2] == x;
                    assert(visited@[j2]);
                    assert(j2 != s);
                }
            }
        }
        out
    }
}

} // verus!
