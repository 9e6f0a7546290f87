//! Cycle detection over an indexed edge list (Kahn's algorithm).
//!
//! Nodes are `0..n`; an edge `(f, t)` has `t < n` and `f <= n`, where the
//! source `n` stands for a node outside the graph (it is never processed,
//! so an edge from it keeps its target from ever becoming ready).

use vstd::prelude::*;

verus! {

/// `rank` orders the graph: every edge leaves a graph node and goes from a
/// lower rank to a higher one.
pub open spec fn ranked(n: nat, edges: Seq<(usize, usize)>, rank: Seq<int>) -> bool {
    &&& rank.len() == n
    &&& forall|k: int|
        0 <= k < edges.len() ==> (#[trigger] edges[k]).0 < n && rank[edges[k].0 as int] < rank[edges[k].1 as int]
}

/// The graph is acyclic: some ranking orders every edge.
pub open spec fn acyclic(n: nat, edges: Seq<(usize, usize)>) -> bool {
    exists|rank: Seq<int>| ranked(n, edges, rank)
}

/// The edges are well formed for a graph of `n` nodes.
pub open spec fn edges_wf(n: nat, edges: Seq<(usize, usize)>) -> bool {
    forall|k: int| 0 <= k < edges.len() ==> (#[trigger] edges[k]).0 <= n && edges[k].1 < n
}

/// The number of edges among `edges[lo..hi]` into `v` whose source is not done.
pub open spec fn live_in(edges: Seq<(usize, usize)>, lo: int, hi: int, v: int, done: Seq<bool>) -> nat
    decreases hi - lo,
{
    if hi <= lo {
        0
    } else {
        live_in(edges, lo, hi - 1, v, done) + if edges[hi - 1].1 == v && !done[edges[hi - 1].0 as int] {
            1nat
        } else {
            0nat
        }
    }
}

/// The number of done nodes among `0..n`.
pub open spec fn count_done(done: Seq<bool>, n: int) -> nat
    decreases n,
{
    if n <= 0 {
        0
    } else {
        count_done(done, n - 1) + if done[n - 1] {
            1nat
        } else {
            0nat
        }
    }
}

proof fn lemma_live_split(edges: Seq<(usize, usize)>, lo: int, mid: int, hi: int, v: int, done: Seq<bool>)
    requires
        lo <= mid <= hi,
    ensures
        live_in(edges, lo, hi, v, done) == live_in(edges, lo, mid, v, done) + live_in(edges, mid, hi, v, done),
    decreases hi - mid,
{
    if hi > mid {
        lemma_live_split(edges, lo, mid, hi - 1, v, done);
    }
}

proof fn lemma_live_positive(edges: Seq<(usize, usize)>, lo: int, hi: int, v: int, done: Seq<bool>)
    requires
        live_in(edges, lo, hi, v, done) > 0,
    ensures
        exists|k: int| lo <= k < hi && #[trigger] edges[k].1 == v && !done[edges[k].0 as int],
    decreases hi - lo,
{
    if hi > lo {
        if edges[hi - 1].1 == v && !done[edges[hi - 1].0 as int] {
            assert(edges[hi - 1].1 == v);
        } else {
            lemma_live_positive(edges, lo, hi - 1, v, done);
        }
    }
}

proof fn lemma_live_zero(edges: Seq<(usize, usize)>, lo: int, hi: int, v: int, done: Seq<bool>, k: int)
    requires
        live_in(edges, lo, hi, v, done) == 0,
        lo <= k < hi,
        edges[k].1 == v,
    ensures
        done[edges[k].0 as int],
    decreases hi - lo,
{
    if hi - 1 != k {
        lemma_live_zero(edges, lo, hi - 1, v, done, k);
    }
}

proof fn lemma_live_same(edges: Seq<(usize, usize)>, lo: int, hi: int, v: int, d1: Seq<bool>, d2: Seq<bool>)
    requires
        forall|k: int| lo <= k < hi && #[trigger] edges[k].1 == v ==> d1[edges[k].0 as int] == d2[edges[k].0 as int],
    ensures
        live_in(edges, lo, hi, v, d1) == live_in(edges, lo, hi, v, d2),
    decreases hi - lo,
{
    if hi > lo {
        lemma_live_same(edges, lo, hi - 1, v, d1, d2);
    }
}

proof fn lemma_count_done_all(done: Seq<bool>, n: int)
    requires
        0 <= n <= done.len(),
        count_done(done, n) == n,
    ensures
        forall|v: int| 0 <= v < n ==> #[trigger] done[v],
    decreases n,
{
    if n > 0 {
        assert(count_done(done, n - 1) <= n - 1) by {
            lemma_count_done_bound(done, n - 1);
        }
        lemma_count_done_all(done, n - 1);
    }
}

proof fn lemma_count_done_bound(done: Seq<bool>, n: int)
    requires
        0 <= n,
    ensures
        count_done(done, n) <= n,
    decreases n,
{
    if n > 0 {
        lemma_count_done_bound(done, n - 1);
    }
}

proof fn lemma_count_done_set(done: Seq<bool>, n: int, u: int)
    requires
        0 <= u < n <= done.len(),
        !done[u],
    ensures
        count_done(done.update(u, true), n) == count_done(done, n) + 1,
    decreases n,
{
    if n - 1 != u {
        lemma_count_done_set(done, n - 1, u);
    } else {
        lemma_count_done_same(done, done.update(u, true), n - 1);
    }
}

proof fn lemma_count_done_same(d1: Seq<bool>, d2: Seq<bool>, n: int)
    requires
        n <= d1.len(),
        n <= d2.len(),
        forall|v: int| 0 <= v < n ==> d1[v] == d2[v],
    ensures
        count_done(d1, n) == count_done(d2, n),
    decreases n,
{
    if n > 0 {
        lemma_count_done_same(d1, d2, n - 1);
    }
}

/// A node that is not done and whose rank is minimal among such nodes.
proof fn lemma_min_rank(rank: Seq<int>, done: Seq<bool>, n: int) -> (v: int)
    requires
        n <= rank.len(),
        n <= done.len(),
        exists|w: int| 0 <= w < n && !#[trigger] done[w],
    ensures
        0 <= v < n,
        !done[v],
        forall|w: int| 0 <= w < n && !#[trigger] done[w] ==> rank[v] <= rank[w],
    decreases n,
{
    if exists|w: int| 0 <= w < n - 1 && !#[trigger] done[w] {
        let m = lemma_min_rank(rank, done, n - 1);
        if !done[n - 1] && rank[n - 1] < rank[m] {
            n - 1
        } else {
            m
        }
    } else {
        n - 1
    }
}

/// Whether the graph of `n` nodes and `edges` is acyclic (and has no edge
/// from outside into it), by repeatedly removing a node without remaining
/// incoming edges.
pub fn kahn_acyclic(n: usize, edges: &Vec<(usize, usize)>) -> (r: bool)
    requires
        edges_wf(n as nat, edges@),
        n < usize::MAX,
    ensures
        r == acyclic(n as nat, edges@),
{
    let m = edges.len();
    let ghost e = edges@;
    // Incoming edge counts.
    let mut indeg: Vec<usize> = Vec::new();
    let mut v: usize = 0;
    while v < n
        invariant
            v <= n,
            indeg@.len() == v,
            forall|w: int| 0 <= w < v ==> #[trigger] indeg@[w] == 0,
        decreases n - v,
    {
        indeg.push(0);
        v = v + 1;
    }
    let ghost mut done: Seq<bool> = Seq::new((n + 1) as nat, |i: int| false);
    let mut k: usize = 0;
    while k < m
        invariant
            m == e.len(),
            e == edges@,
            edges_wf(n as nat, e),
            k <= m,
            indeg@.len() == n,
            done == Seq::new((n + 1) as nat, |i: int| false),
            forall|w: int| 0 <= w < n ==> #[trigger] indeg@[w] == live_in(e, 0, k as int, w, done),
            forall|w: int| 0 <= w < n ==> #[trigger] indeg@[w] <= k,
        decreases m - k,
    {
        let t = edges[k].1;
        proof {
            assert forall|w: int| 0 <= w < n implies #[trigger] live_in(e, 0, k + 1, w, done) == live_in(
                e,
                0,
                k as int,
                w,
                done,
            ) + if w == t {
                1nat
            } else {
                0nat
            } by {
                assert(!done[e[k as int].0 as int]);
            }
        }
        let c = indeg[t];
        indeg.set(t, c + 1);
        k = k + 1;
    }
    // Initially ready nodes.
    let mut ready: Vec<usize> = Vec::new();
    let mut v: usize = 0;
    while v < n
        invariant
            v <= n,
            indeg@.len() == n,
            forall|i: int| 0 <= i < ready@.len() ==> (#[trigger] ready@[i]) < v && indeg@[ready@[i] as int] == 0,
            forall|i: int, j: int| 0 <= i < j < ready@.len() ==> #[trigger] ready@[i] != #[trigger] ready@[j],
            forall|w: int| 0 <= w < v && #[trigger] indeg@[w] == 0 ==> ready@.contains(w as usize),
        decreases n - v,
    {
        let ghost before = ready@;
        if indeg[v] == 0 {
            ready.push(v);
            proof {
                assert(ready@[ready@.len() - 1] == v);
                assert forall|x: usize| before.contains(x) implies ready@.contains(x) by {
                    let i = choose|i: int| 0 <= i < before.len() && before[i] == x;
                    assert(ready@[i] == x);
                }
            }
        }
        v = v + 1;
    }
    let ghost mut rank: Seq<int> = Seq::new(n as nat, |i: int| 0);
    let mut visited: usize = 0;
    proof {
        lemma_count_none(done, n as int);
    }
    while ready.len() > 0
        invariant
            m == e.len(),
            e == edges@,
            edges_wf(n as nat, e),
            indeg@.len() == n,
            done.len() == n + 1,
            !done[n as int],
            rank.len() == n,
            visited == count_done(done, n as int),
            visited <= n,
            forall|w: int| 0 <= w < n ==> #[trigger] indeg@[w] == live_in(e, 0, m as int, w, done),
            forall|i: int| 0 <= i < ready@.len() ==> (#[trigger] ready@[i]) < n && !done[ready@[i] as int]
                && indeg@[ready@[i] as int] == 0,
            forall|i: int, j: int| 0 <= i < j < ready@.len() ==> #[trigger] ready@[i] != #[trigger] ready@[j],
            forall|w: int| 0 <= w < n && !done[w] && #[trigger] indeg@[w] == 0 ==> ready@.contains(w as usize),
            forall|w: int| 0 <= w < n && #[trigger] done[w] ==> 1 <= rank[w] <= visited,
            forall|j: int|
                0 <= j < m && done[(#[trigger] e[j]).1 as int] ==> e[j].0 < n && done[e[j].0 as int] && rank[e[j].0 as int]
                    < rank[e[j].1 as int],
        decreases n - visited,
    {
        let ghost old_ready = ready@;
        let u = ready.pop().unwrap();
        let ghost old_done = done;
        proof {
            assert(ready@ =~= old_ready.drop_last());
            assert forall|w: int| 0 <= w < n && w != u && !old_done[w] && #[trigger] indeg@[w] == 0 implies ready@.contains(w as usize) by {
                assert(old_ready.contains(w as usize));
                let i = choose|i: int| 0 <= i < old_ready.len() && old_ready[i] == w as usize;
                assert(i != old_ready.len() - 1);
                assert(ready@[i] == w as usize);
            }
        }
        proof {
            assert(!done[u as int]);
            lemma_count_done_set(done, n as int, u as int);
            lemma_count_done_bound(done.update(u as int, true), n as int);
            // Every edge into `u` comes from a done node.
            assert forall|j: int| 0 <= j < m && (#[trigger] e[j]).1 == u implies done[e[j].0 as int] by {
                lemma_live_zero(e, 0, m as int, u as int, done, j);
            }
        }
        visited = visited + 1;
        proof {
            done = done.update(u as int, true);
            rank = rank.update(u as int, visited as int);
        }
        let mut k: usize = 0;
        while k < m
            invariant
                m == e.len(),
                e == edges@,
                edges_wf(n as nat, e),
                u < n,
                k <= m,
                indeg@.len() == n,
                done == old_done.update(u as int, true),
                !old_done[u as int],
                old_done.len() == n + 1,
                !old_done[n as int],
                forall|j: int| 0 <= j < m && (#[trigger] e[j]).1 == u ==> old_done[e[j].0 as int],
                forall|j: int|
                    0 <= j < m && old_done[(#[trigger] e[j]).1 as int] ==> old_done[e[j].0 as int],
                forall|w: int|
                    0 <= w < n ==> #[trigger] indeg@[w] == live_in(e, 0, k as int, w, done) + live_in(
                        e,
                        k as int,
                        m as int,
                        w,
                        old_done,
                    ),
                forall|i: int| 0 <= i < ready@.len() ==> (#[trigger] ready@[i]) < n && !done[ready@[i] as int]
                    && indeg@[ready@[i] as int] == 0,
                forall|i: int, j: int| 0 <= i < j < ready@.len() ==> #[trigger] ready@[i] != #[trigger] ready@[j],
                forall|w: int|
                    0 <= w < n && !done[w] && #[trigger] indeg@[w] == 0 && live_in(e, k as int, m as int, w, old_done)
                        == 0 ==> ready@.contains(w as usize),
            decreases m - k,
        {
            let (f, t) = edges[k];
            let ghost ready0 = ready@;
            let ghost indeg0 = indeg@;
            proof {
                assert forall|w: int| 0 <= w < n implies live_in(e, 0, k + 1, w, done) == live_in(
                    e,
                    0,
                    k as int,
                    w,
                    done,
                ) + if w == t && !done[f as int] {
                    1nat
                } else {
                    0nat
                } by {}
                assert forall|w: int| 0 <= w < n implies live_in(e, k as int, m as int, w, old_done) == (if w == t
                    && !old_done[f as int] {
                    1nat
                } else {
                    0nat
                }) + live_in(e, k + 1, m as int, w, old_done) by {
                    lemma_live_split(e, k as int, k + 1, m as int, w, old_done);
                    assert(live_in(e, k as int, k + 1, w, old_done) == live_in(e, k as int, k as int, w, old_done) + if
                    w == t && !old_done[f as int] {
                        1nat
                    } else {
                        0nat
                    });
                }
            }
            if f == u {
                proof {
                    assert(!old_done[f as int]);
                    assert(done[f as int]);
                    // The target is neither `u` nor done: an edge into a done node comes from a done node.
                    if t == u {
                        assert(old_done[e[k as int].0 as int]);
                    }
                    if old_done[t as int] {
                        assert(old_done[e[k as int].0 as int]);
                    }
                }
                let c = indeg[t];
                indeg.set(t, c - 1);
                if c - 1 == 0 {
                    proof {
                        assert forall|i: int| 0 <= i < ready@.len() implies ready@[i] != t by {
                            assert(indeg@[ready@[i] as int] == 0 || ready@[i] == t);
                        }
                    }
                    ready.push(t);
                }
            } else {
                proof {
                    if f != n {
                        assert(done[f as int] == old_done[f as int]);
                    }
                }
            }
            proof {
                assert forall|x: usize| ready0.contains(x) implies ready@.contains(x) by {
                    let i = choose|i: int| 0 <= i < ready0.len() && ready0[i] == x;
                    assert(ready@[i] == x);
                }
                assert forall|w: int|
                    0 <= w < n && !done[w] && #[trigger] indeg@[w] == 0 && live_in(e, k + 1, m as int, w, old_done)
                        == 0 implies ready@.contains(w as usize) by {
                    if w == t && f == u {
                        assert(ready@[ready@.len() - 1] == t);
                    } else if w == t && !old_done[f as int] {
                        assert(!done[f as int]);
                        assert(indeg@[w] == indeg0[w]);
                        assert(false);
                    } else {
                        assert(indeg@[w] == indeg0[w]);
                        assert(ready0.contains(w as usize));
                    }
                }
            }
            k = k + 1;
        }
        proof {
            assert forall|w: int| 0 <= w < n implies #[trigger] indeg@[w] == live_in(e, 0, m as int, w, done) by {
                assert(live_in(e, m as int, m as int, w, old_done) == 0);
            }
            assert forall|j: int|
                0 <= j < m && done[(#[trigger] e[j]).1 as int] implies e[j].0 < n && done[e[j].0 as int]
                    && rank[e[j].0 as int] < rank[e[j].1 as int] by {
                if e[j].1 == u {
                    assert(old_done[e[j].0 as int]);
                    assert(e[j].0 != n);
                } else {
                    assert(old_done[e[j].1 as int]);
                }
            }
        }
    }
    if visited == n {
        proof {
            lemma_count_done_all(done, n as int);
            assert forall|j: int| 0 <= j < e.len() implies (#[trigger] e[j]).0 < n && rank[e[j].0 as int]
                < rank[e[j].1 as int] by {
                assert(done[e[j].1 as int]);
            }
            assert(ranked(n as nat, e, rank));
        }
        true
    } else {
        proof {
            assert(exists|w: int| 0 <= w < n && !#[trigger] done[w]) by {
                if forall|w: int| 0 <= w < n ==> #[trigger] done[w] {
                    lemma_count_done_same(done, Seq::new((n + 1) as nat, |i: int| i < n), n as int);
                    lemma_count_done_full(n as int);
                }
            }
            if acyclic(n as nat, e) {
                let r = choose|r: Seq<int>| ranked(n as nat, e, r);
                let v = lemma_min_rank(r, done, n as int);
                if indeg@[v] == 0 {
                    assert(ready@.contains(v as usize));
                }
                lemma_live_positive(e, 0, m as int, v, done);
                let j = choose|j: int| 0 <= j < m && #[trigger] e[j].1 == v && !done[e[j].0 as int];
                assert(e[j].0 < n && r[e[j].0 as int] < r[e[j].1 as int]);
            }
        }
        false
    }
}

proof fn lemma_count_none(done: Seq<bool>, n: int)
    requires
        0 <= n <= done.len(),
        forall|i: int| 0 <= i < done.len() ==> !#[trigger] done[i],
    ensures
        count_done(done, n) == 0,
    decreases n,
{
    if n > 0 {
        lemma_count_none(done, n - 1);
    }
}

proof fn lemma_count_done_full(n: int)
    requires
        0 <= n,
    ensures
        count_done(Seq::new((n + 1) as nat, |i: int| i < n), n) == n,
{
    let full = Seq::new((n + 1) as nat, |i: int| i < n);
    lemma_count_prefix_full(full, n, n);
}

proof fn lemma_count_prefix_full(full: Seq<bool>, n: int, p: int)
    requires
        0 <= p <= n,
        full.len() == n + 1,
        forall|i: int| 0 <= i < n ==> #[trigger] full[i],
    ensures
        count_done(full, p) == p,
    decreases p,
{
    if p > 0 {
        lemma_count_prefix_full(full, n, p - 1);
    }
}

} // verus!
