//! Structural reachability over the built graph: steps no source reaches,
//! and steps that reach no sink (smells, not errors).

use vstd::prelude::*;

use crate::runtime::node::{Node, NodeStep};
use crate::text::str_eq;

verus! {

/// The adjacency lists hold an edge from `u` to `w`.
pub open spec fn has_edge(adj: Seq<Vec<usize>>, u: int, w: int) -> bool {
    0 <= u < adj.len() && listed(adj[u]@, w)
}

/// `p` is a path along the adjacency lists that begins at one of `starts`.
pub open spec fn is_path(adj: Seq<Vec<usize>>, starts: Seq<usize>, p: Seq<int>) -> bool {
    &&& p.len() > 0
    &&& forall|i: int| 0 <= i < p.len() ==> 0 <= #[trigger] p[i] < adj.len()
    &&& exists|i: int| 0 <= i < starts.len() && starts[i] == p[0]
    &&& forall|i: int| 0 <= i < p.len() - 1 ==> has_edge(adj, #[trigger] p[i], p[i + 1])
}

/// Node `v` is reached from `starts` along the adjacency lists.
pub open spec fn reachable(adj: Seq<Vec<usize>>, starts: Seq<usize>, v: int) -> bool {
    exists|p: Seq<int>| #[trigger] is_path(adj, starts, p) && p.last() == v
}

/// The number of unmarked flags.
pub open spec fn count_unmarked(s: Seq<bool>) -> nat
    decreases s.len(),
{
    if s.len() == 0 {
        0
    } else {
        count_unmarked(s.drop_last()) + if s.last() {
            0nat
        } else {
            1nat
        }
    }
}

proof fn lemma_mark_decreases(s: Seq<bool>, i: int)
    requires
        0 <= i < s.len(),
        !s[i],
    ensures
        count_unmarked(s.update(i, true)) + 1 == count_unmarked(s),
    decreases s.len(),
{
    if i < s.len() - 1 {
        assert(s.update(i, true).drop_last() =~= s.drop_last().update(i, true));
        lemma_mark_decreases(s.drop_last(), i);
    } else {
        assert(s.update(i, true).drop_last() =~= s.drop_last());
    }
}

proof fn lemma_reach_step(adj: Seq<Vec<usize>>, starts: Seq<usize>, u: int, v: int)
    requires
        reachable(adj, starts, u),
        0 <= u < adj.len(),
        0 <= v < adj.len(),
        has_edge(adj, u, v),
    ensures
        reachable(adj, starts, v),
{
    let p = choose|p: Seq<int>| #[trigger] is_path(adj, starts, p) && p.last() == u;
    let q = p.push(v);
    assert forall|i: int| 0 <= i < q.len() - 1 implies has_edge(adj, #[trigger] q[i], q[i + 1]) by {
        if i < p.len() - 1 {
            assert(q[i] == p[i] && q[i + 1] == p[i + 1]);
        }
    }
    assert(q[0] == p[0]);
    assert(is_path(adj, starts, q));
}

proof fn lemma_reach_start(adj: Seq<Vec<usize>>, starts: Seq<usize>, i: int)
    requires
        0 <= i < starts.len(),
        starts[i] < adj.len(),
    ensures
        reachable(adj, starts, starts[i] as int),
{
    let p = seq![starts[i] as int];
    assert(is_path(adj, starts, p));
}

proof fn lemma_closed_complete(adj: Seq<Vec<usize>>, starts: Seq<usize>, seen: Seq<bool>, p: Seq<int>, k: int)
    requires
        seen.len() == adj.len(),
        forall|i: int| 0 <= i < starts.len() && starts[i] < adj.len() ==> seen[#[trigger] starts[i] as int],
        forall|u: int, w: int| 0 <= u < adj.len() && 0 <= w < adj.len() && seen[u] && #[trigger] has_edge(adj, u, w) ==> seen[w],
        is_path(adj, starts, p),
        0 <= k < p.len(),
    ensures
        seen[p[k]],
    decreases k,
{
    if k == 0 {
        let i = choose|i: int| 0 <= i < starts.len() && starts[i] == p[0];
        assert(seen[starts[i] as int]);
    } else {
        lemma_closed_complete(adj, starts, seen, p, k - 1);
        assert(has_edge(adj, p[k - 1], p[k]));
    }
}

/// The nodes reached from `starts` along the adjacency lists: a flag per
/// node. Targets and starts outside the nodes are ignored.
pub fn reach(adjacency: &Vec<Vec<usize>>, starts: &Vec<usize>) -> (r: Vec<bool>)
    ensures
        r@.len() == adjacency@.len(),
        forall|v: int|
            0 <= v < r@.len() ==> (#[trigger] r@[v] <==> reachable(adjacency@, starts@, v)),
{
    let n = adjacency.len();
    let mut seen: Vec<bool> = Vec::new();
    let mut i: usize = 0;
    while i < n
        invariant
            i <= n,
            seen@.len() == i,
            forall|q: int| 0 <= q < i ==> !seen@[q],
        decreases n - i,
    {
        seen.push(false);
        i = i + 1;
    }
    let mut stack: Vec<usize> = Vec::new();
    let mut s: usize = 0;
    while s < starts.len()
        invariant
            n == adjacency@.len(),
            seen@.len() == n,
            forall|q: int| 0 <= q < n ==> !seen@[q],
            s <= starts@.len(),
            forall|q: int| 0 <= q < stack@.len() ==> (#[trigger] stack@[q]) < n && reachable(adjacency@, starts@, stack@[q] as int),
            forall|q: int| 0 <= q < s && starts@[q] < n ==> exists|p: int| 0 <= p < stack@.len() && stack@[p] == #[trigger] starts@[q],
        decreases starts.len() - s,
    {
        if starts[s] < n {
            proof {
                lemma_reach_start(adjacency@, starts@, s as int);
            }
            let ghost before = stack@;
            stack.push(starts[s]);
            proof {
                assert forall|q: int| 0 <= q < s + 1 && starts@[q] < n implies exists|p: int| 0 <= p < stack@.len() && stack@[p] == #[trigger] starts@[q] by {
                    if q == s {
                        assert(stack@[before.len() as int] == starts@[q]);
                    } else {
                        let p = choose|p: int| 0 <= p < before.len() && before[p] == starts@[q];
                        assert(stack@[p] == starts@[q]);
                    }
                }
            }
        }
        s = s + 1;
    }
    while stack.len() > 0
        invariant
            n == adjacency@.len(),
            seen@.len() == n,
            forall|q: int| 0 <= q < stack@.len() ==> (#[trigger] stack@[q]) < n && reachable(adjacency@, starts@, stack@[q] as int),
            forall|v: int| 0 <= v < n && #[trigger] seen@[v] ==> reachable(adjacency@, starts@, v),
            forall|q: int|
                0 <= q < starts@.len() && starts@[q] < n ==> seen@[#[trigger] starts@[q] as int] || exists|p: int|
                    0 <= p < stack@.len() && stack@[p] == starts@[q],
            forall|u: int, j: int|
                0 <= u < n && seen@[u] && 0 <= j < adjacency@[u]@.len() && #[trigger] adjacency@[u]@[j] < n ==> seen@[adjacency@[u]@[j] as int]
                    || exists|p: int| 0 <= p < stack@.len() && stack@[p] == adjacency@[u]@[j],
        decreases count_unmarked(seen@), stack.len(),
    {
        let ghost pre = stack@;
        let x = stack.pop().unwrap();
        let ghost popped = stack@;
        assert(pre == popped.push(x));
        if seen[x] {
            proof {
                assert forall|q: int|
                    0 <= q < starts@.len() && starts@[q] < n implies seen@[#[trigger] starts@[q] as int] || exists|p: int|
                        0 <= p < stack@.len() && stack@[p] == starts@[q] by {
                    if !seen@[starts@[q] as int] {
                        let p = choose|p: int| 0 <= p < pre.len() && pre[p] == starts@[q];
                        assert(p < popped.len());
                        assert(stack@[p] == starts@[q]);
                    }
                }
                assert forall|u: int, j: int|
                    0 <= u < n && seen@[u] && 0 <= j < adjacency@[u]@.len() && #[trigger] adjacency@[u]@[j] < n implies seen@[adjacency@[u]@[j] as int]
                        || exists|p: int| 0 <= p < stack@.len() && stack@[p] == adjacency@[u]@[j] by {
                    if !seen@[adjacency@[u]@[j] as int] {
                        let p = choose|p: int| 0 <= p < pre.len() && pre[p] == adjacency@[u]@[j];
                        assert(p < popped.len());
                        assert(stack@[p] == adjacency@[u]@[j]);
                    }
                }
            }
            continue;
        }
        let ghost before_seen = seen@;
        seen.set(x, true);
        proof {
            lemma_mark_decreases(before_seen, x as int);
        }
        let targets = &adjacency[x];
        let ghost base = stack@;
        let mut j: usize = 0;
        while j < targets.len()
            invariant
                n == adjacency@.len(),
                    x < n,
                *targets == adjacency@[x as int],
                seen@ == before_seen.update(x as int, true),
                count_unmarked(seen@) + 1 == count_unmarked(before_seen),
                reachable(adjacency@, starts@, x as int),
                j <= targets@.len(),
                stack@.len() >= base.len(),
                stack@.subrange(0, base.len() as int) == base,
                forall|q: int| 0 <= q < stack@.len() ==> (#[trigger] stack@[q]) < n && reachable(adjacency@, starts@, stack@[q] as int),
                forall|q: int| 0 <= q < j && targets@[q] < n ==> exists|p: int| 0 <= p < stack@.len() && stack@[p] == #[trigger] targets@[q],
            decreases targets.len() - j,
        {
            let t = targets[j];
            if t < n {
                proof {
                    assert(has_edge(adjacency@, x as int, t as int));
                    lemma_reach_step(adjacency@, starts@, x as int, t as int);
                }
                let ghost prev = stack@;
                stack.push(t);
                proof {
                    assert(stack@.subrange(0, base.len() as int) =~= prev.subrange(0, base.len() as int));
                    assert forall|q: int| 0 <= q < j + 1 && targets@[q] < n implies exists|p: int| 0 <= p < stack@.len() && stack@[p] == #[trigger] targets@[q] by {
                        if q == j {
                            assert(stack@[prev.len() as int] == targets@[q]);
                        } else {
                            let p = choose|p: int| 0 <= p < prev.len() && prev[p] == targets@[q];
                            assert(stack@[p] == targets@[q]);
                        }
                    }
                }
            }
            j = j + 1;
        }
        proof {
            assert forall|v: int| 0 <= v < n && #[trigger] seen@[v] implies reachable(adjacency@, starts@, v) by {
                if v != x {
                    assert(before_seen[v]);
                }
            }
            assert forall|q: int|
                0 <= q < starts@.len() && starts@[q] < n implies seen@[#[trigger] starts@[q] as int] || exists|p: int|
                    0 <= p < stack@.len() && stack@[p] == starts@[q] by {
                if !seen@[starts@[q] as int] {
                    assert(starts@[q] != x);
                    let p = choose|p: int| 0 <= p < pre.len() && pre[p] == starts@[q];
                    assert(p < popped.len());
                    assert(stack@[p] == base[p]);
                }
            }
            assert forall|u: int, jj: int|
                0 <= u < n && seen@[u] && 0 <= jj < adjacency@[u]@.len() && #[trigger] adjacency@[u]@[jj] < n implies seen@[adjacency@[u]@[jj] as int]
                    || exists|p: int| 0 <= p < stack@.len() && stack@[p] == adjacency@[u]@[jj] by {
                if u == x {
                    assert(targets@[jj] == adjacency@[u]@[jj]);
                } else if !seen@[adjacency@[u]@[jj] as int] {
                    assert(before_seen[u]);
                    assert(adjacency@[u]@[jj] != x);
                    let p = choose|p: int| 0 <= p < pre.len() && pre[p] == adjacency@[u]@[jj];
                    assert(p < popped.len());
                    assert(stack@[p] == base[p]);
                }
            }
        }
    }
    proof {
        assert forall|v: int| 0 <= v < n implies (#[trigger] seen@[v] <==> reachable(adjacency@, starts@, v)) by {
            if reachable(adjacency@, starts@, v) {
                let p = choose|p: Seq<int>| #[trigger] is_path(adjacency@, starts@, p) && p.last() == v;
                assert forall|i: int| 0 <= i < starts@.len() && starts@[i] < n implies seen@[#[trigger] starts@[i] as int] by {
                }
                assert forall|u: int, w: int| 0 <= u < n && 0 <= w < n && seen@[u] && #[trigger] has_edge(adjacency@, u, w) implies seen@[w] by {
                    let jj = choose|jj: int| 0 <= jj < adjacency@[u]@.len() && adjacency@[u]@[jj] == w;
                    assert(adjacency@[u]@[jj] < n);
                }
                lemma_closed_complete(adjacency@, starts@, seen@, p, p.len() - 1);
            }
        }
    }
    seen
}

/// Position `i` holds the first node with id `id`.
pub open spec fn first_node(nodes: Seq<Node>, id: Seq<char>, i: int) -> bool {
    0 <= i < nodes.len() && nodes[i].id@ == id && forall|q: int| 0 <= q < i ==> (#[trigger] nodes[q]).id@ != id
}

/// The position of the first node with id `id`, or -1.
pub open spec fn node_index(nodes: Seq<Node>, id: Seq<char>) -> int {
    if exists|i: int| first_node(nodes, id, i) {
        choose|i: int| first_node(nodes, id, i)
    } else {
        -1
    }
}

/// Node `u` has a route into node `w`.
pub open spec fn routes_to(nodes: Seq<Node>, u: int, w: int) -> bool {
    0 <= u < nodes.len() && exists|j: int|
        0 <= j < nodes[u].routes@.len() && node_index(nodes, (#[trigger] nodes[u].routes@[j]).to@) == w
}

/// The adjacency lists hold exactly the routes between nodes, forwards or
/// backwards.
pub open spec fn edges_match(adj: Seq<Vec<usize>>, nodes: Seq<Node>, forward: bool) -> bool {
    &&& adj.len() == nodes.len()
    &&& forall|u: int, w: int|
        0 <= u < nodes.len() && 0 <= w < nodes.len() ==> (#[trigger] has_edge(adj, u, w) <==> if forward {
            routes_to(nodes, u, w)
        } else {
            routes_to(nodes, w, u)
        })
    &&& forall|u: int, j: int| 0 <= u < adj.len() && 0 <= j < adj[u]@.len() ==> #[trigger] adj[u]@[j] < nodes.len()
}

/// `x` is one of the entries of `s`.
pub open spec fn listed(s: Seq<usize>, x: int) -> bool {
    exists|q: int| 0 <= q < s.len() && s[q] == x
}

/// The first node with id `id`.
pub fn index_of(nodes: &Vec<Node>, id: &str) -> (r: Option<usize>)
    ensures
        match r {
            Some(i) => node_index(nodes@, id@) == i && i < nodes@.len(),
            None => node_index(nodes@, id@) == -1,
        },
{
    let mut i: usize = 0;
    while i < nodes.len()
        invariant
            i <= nodes@.len(),
            forall|q: int| 0 <= q < i ==> (#[trigger] nodes@[q]).id@ != id@,
        decreases nodes.len() - i,
    {
        if str_eq(nodes[i].id.as_str(), id) {
            proof {
                assert(first_node(nodes@, id@, i as int));
                let c = choose|c: int| first_node(nodes@, id@, c);
                assert(c == i) by {
                    if c < i {
                        assert(nodes@[c].id@ != id@);
                    } else if c > i {
                        assert(nodes@[i as int].id@ != id@);
                    }
                }
            }
            return Some(i);
        }
        i = i + 1;
    }
    proof {
        assert(!exists|c: int| first_node(nodes@, id@, c)) by {
            if exists|c: int| first_node(nodes@, id@, c) {
                let c = choose|c: int| first_node(nodes@, id@, c);
                assert(nodes@[c].id@ != id@);
            }
        }
    }
    None
}

/// The nodes node `u`'s routes lead to, by position.
fn targets_of(nodes: &Vec<Node>, u: usize) -> (r: Vec<usize>)
    requires
        u < nodes@.len(),
    ensures
        forall|w: int| #[trigger] listed(r@, w) <==> (0 <= w < nodes@.len() && routes_to(nodes@, u as int, w)),
        forall|q: int| 0 <= q < r@.len() ==> #[trigger] r@[q] < nodes@.len(),
{
    let routes = &nodes[u].routes;
    let mut r: Vec<usize> = Vec::new();
    let mut j: usize = 0;
    while j < routes.len()
        invariant
            u < nodes@.len(),
            *routes == nodes@[u as int].routes,
            j <= routes@.len(),
            forall|q: int| 0 <= q < r@.len() ==> #[trigger] r@[q] < nodes@.len(),
            forall|w: int|
                #[trigger] listed(r@, w) <==> (exists|jj: int|
                    0 <= jj < j && node_index(nodes@, (#[trigger] routes@[jj]).to@) == w && 0 <= w < nodes@.len()),
        decreases routes.len() - j,
    {
        let ghost before = r@;
        match index_of(nodes, routes[j].to.as_str()) {
            Some(w) => {
                r.push(w);
            },
            None => {},
        }
        proof {
            assert forall|x: int|
                #[trigger] listed(r@, x) <==> (exists|jj: int|
                    0 <= jj < j + 1 && node_index(nodes@, (#[trigger] routes@[jj]).to@) == x && 0 <= x < nodes@.len()) by {
                let old_side = listed(before, x);
                if listed(r@, x) {
                    let q = choose|q: int| 0 <= q < r@.len() && r@[q] == x;
                    if q < before.len() {
                        assert(before[q] == x);
                        assert(listed(before, x));
                        let jj = choose|jj: int| 0 <= jj < j && node_index(nodes@, (#[trigger] routes@[jj]).to@) == x && 0 <= x < nodes@.len();
                        assert(0 <= jj < j + 1 && node_index(nodes@, routes@[jj].to@) == x);
                    } else {
                        assert(node_index(nodes@, routes@[j as int].to@) == x);
                    }
                }
                if exists|jj: int| 0 <= jj < j + 1 && node_index(nodes@, (#[trigger] routes@[jj]).to@) == x && 0 <= x < nodes@.len() {
                    let jj = choose|jj: int| 0 <= jj < j + 1 && node_index(nodes@, (#[trigger] routes@[jj]).to@) == x && 0 <= x < nodes@.len();
                    if jj < j {
                        assert(listed(before, x));
                        let q = choose|q: int| 0 <= q < before.len() && before[q] == x;
                        assert(r@[q] == x);
                    } else {
                        assert(r@[before.len() as int] == x);
                    }
                }
            }
        }
        j = j + 1;
    }
    r
}

/// The adjacency lists of the routes between nodes, forwards.
pub fn forward_adjacency(nodes: &Vec<Node>) -> (r: Vec<Vec<usize>>)
    ensures
        edges_match(r@, nodes@, true),
{
    let mut adj: Vec<Vec<usize>> = Vec::new();
    let mut u: usize = 0;
    while u < nodes.len()
        invariant
            u <= nodes@.len(),
            adj@.len() == u,
            forall|a: int, w: int|
                0 <= a < u && 0 <= w < nodes@.len() ==> (#[trigger] has_edge(adj@, a, w) <==> routes_to(nodes@, a, w)),
            forall|a: int, j: int| 0 <= a < adj@.len() && 0 <= j < adj@[a]@.len() ==> #[trigger] adj@[a]@[j] < nodes@.len(),
        decreases nodes.len() - u,
    {
        let t = targets_of(nodes, u);
        let ghost before = adj@;
        adj.push(t);
        proof {
            assert forall|a: int, w: int|
                0 <= a < u + 1 && 0 <= w < nodes@.len() implies (#[trigger] has_edge(adj@, a, w) <==> routes_to(nodes@, a, w)) by {
                if a < u {
                    assert(adj@[a] == before[a]);
                    assert(has_edge(adj@, a, w) == has_edge(before, a, w));
                } else {
                    assert(adj@[a] == t);
                    assert(listed(t@, w) <==> (0 <= w < nodes@.len() && routes_to(nodes@, u as int, w)));
                }
            }
        }
        u = u + 1;
    }
    adj
}

/// The adjacency lists of the routes between nodes, backwards: node `w`
/// lists every node with a route into it.
pub fn backward_adjacency(nodes: &Vec<Node>) -> (r: Vec<Vec<usize>>)
    ensures
        edges_match(r@, nodes@, false),
{
    let n = nodes.len();
    let mut adj: Vec<Vec<usize>> = Vec::new();
    let mut w: usize = 0;
    while w < n
        invariant
            n == nodes@.len(),
            w <= n,
            adj@.len() == w,
            forall|a: int, u: int| 0 <= a < w && 0 <= u < n ==> (#[trigger] has_edge(adj@, a, u) <==> routes_to(nodes@, u, a)),
            forall|a: int, j: int| 0 <= a < adj@.len() && 0 <= j < adj@[a]@.len() ==> #[trigger] adj@[a]@[j] < n,
        decreases n - w,
    {
        let mut sources: Vec<usize> = Vec::new();
        let mut u: usize = 0;
        while u < n
            invariant
                n == nodes@.len(),
                w < n,
                u <= n,
                forall|q: int| 0 <= q < sources@.len() ==> #[trigger] sources@[q] < n,
                forall|x: int| #[trigger] listed(sources@, x) <==> (0 <= x < u && routes_to(nodes@, x, w as int)),
            decreases n - u,
        {
            let t = targets_of(nodes, u);
            let mut found = false;
            let mut k: usize = 0;
            while k < t.len()
                invariant
                    k <= t@.len(),
                    found <==> exists|q: int| 0 <= q < k && #[trigger] t@[q] == w,
                decreases t.len() - k,
            {
                if t[k] == w {
                    found = true;
                }
                k = k + 1;
            }
            let ghost before = sources@;
            if found {
                sources.push(u);
            }
            proof {
                assert(listed(t@, w as int) <==> routes_to(nodes@, u as int, w as int));
                assert forall|x: int| #[trigger] listed(sources@, x) <==> (0 <= x < u + 1 && routes_to(nodes@, x, w as int)) by {
                    let old_side = listed(before, x);
                    if listed(sources@, x) {
                        let q = choose|q: int| 0 <= q < sources@.len() && sources@[q] == x;
                        if q < before.len() {
                            assert(before[q] == x);
                            assert(listed(before, x));
                        }
                    }
                    if 0 <= x < u + 1 && routes_to(nodes@, x, w as int) {
                        if x < u {
                            assert(listed(before, x));
                            let q = choose|q: int| 0 <= q < before.len() && before[q] == x;
                            assert(sources@[q] == x);
                        } else {
                            assert(sources@[before.len() as int] == x);
                        }
                    }
                }
            }
            u = u + 1;
        }
        let ghost before = adj@;
        adj.push(sources);
        proof {
            assert forall|a: int, x: int| 0 <= a < w + 1 && 0 <= x < n implies (#[trigger] has_edge(adj@, a, x) <==> routes_to(nodes@, x, a)) by {
                if a < w {
                    assert(adj@[a] == before[a]);
                    assert(has_edge(adj@, a, x) == has_edge(before, a, x));
                } else {
                    assert(adj@[a] == sources);
                    assert(listed(sources@, x) <==> (0 <= x < n && routes_to(nodes@, x, a)));
                }
            }
        }
        w = w + 1;
    }
    adj
}

/// Reachability depends only on the edges the lists hold.
pub proof fn lemma_same_edges_reach(a: Seq<Vec<usize>>, b: Seq<Vec<usize>>, starts: Seq<usize>, v: int)
    requires
        a.len() == b.len(),
        forall|u: int, w: int| 0 <= u < a.len() && 0 <= w < a.len() ==> (#[trigger] has_edge(a, u, w) <==> has_edge(b, u, w)),
    ensures
        reachable(a, starts, v) <==> reachable(b, starts, v),
{
    if reachable(a, starts, v) {
        let p = choose|p: Seq<int>| #[trigger] is_path(a, starts, p) && p.last() == v;
        assert forall|i: int| 0 <= i < p.len() - 1 implies has_edge(b, #[trigger] p[i], p[i + 1]) by {
            assert(has_edge(a, p[i], p[i + 1]));
        }
        assert(is_path(b, starts, p));
    }
    if reachable(b, starts, v) {
        let p = choose|p: Seq<int>| #[trigger] is_path(b, starts, p) && p.last() == v;
        assert forall|i: int| 0 <= i < p.len() - 1 implies has_edge(a, #[trigger] p[i], p[i + 1]) by {
            assert(has_edge(b, p[i], p[i + 1]));
        }
        assert(is_path(a, starts, p));
    }
}

/// The positions of the named roots among the nodes (unknown names are
/// left out), in order.
pub open spec fn root_indices(nodes: Seq<Node>, roots: Seq<String>) -> Seq<usize>
    decreases roots.len(),
{
    if roots.len() == 0 {
        Seq::empty()
    } else {
        root_indices(nodes, roots.drop_last()) + if node_index(nodes, roots.last()@) >= 0 {
            seq![node_index(nodes, roots.last()@) as usize]
        } else {
            Seq::empty()
        }
    }
}

/// The positions of the sinks, in order.
pub open spec fn sink_indices(nodes: Seq<Node>, k: int) -> Seq<usize>
    decreases k,
{
    if k <= 0 {
        Seq::empty()
    } else {
        sink_indices(nodes, k - 1) + if nodes[k - 1].step is Sink {
            seq![(k - 1) as usize]
        } else {
            Seq::empty()
        }
    }
}

/// The ids, in order, of the first `k` nodes that no source reaches.
pub open spec fn never_reached(nodes: Seq<Node>, adj: Seq<Vec<usize>>, starts: Seq<usize>, k: int) -> Seq<String>
    decreases k,
{
    if k <= 0 {
        Seq::empty()
    } else {
        never_reached(nodes, adj, starts, k - 1) + if !reachable(adj, starts, k - 1) {
            seq![nodes[k - 1].id]
        } else {
            Seq::empty()
        }
    }
}

/// The ids, in order, of the first `k` nodes that are not sinks and reach
/// no sink.
pub open spec fn sinkless(nodes: Seq<Node>, adj: Seq<Vec<usize>>, sinks: Seq<usize>, k: int) -> Seq<String>
    decreases k,
{
    if k <= 0 {
        Seq::empty()
    } else {
        sinkless(nodes, adj, sinks, k - 1) + if !(nodes[k - 1].step is Sink) && !reachable(adj, sinks, k - 1) {
            seq![nodes[k - 1].id]
        } else {
            Seq::empty()
        }
    }
}

/// The structural smells of a graph: the steps unreachable from any
/// source (the roots), and the steps, other than sinks, that cannot reach
/// any sink. Reachability follows the routes between steps.
pub fn warn_unreachable(nodes: &Vec<Node>, roots: &Vec<String>) -> (r: (Vec<String>, Vec<String>))
    ensures
        forall|adj: Seq<Vec<usize>>|
            #[trigger] edges_match(adj, nodes@, true) ==> r.0@ == never_reached(nodes@, adj, root_indices(nodes@, roots@), nodes@.len() as int),
        forall|adj: Seq<Vec<usize>>|
            #[trigger] edges_match(adj, nodes@, false) ==> r.1@ == sinkless(nodes@, adj, sink_indices(nodes@, nodes@.len() as int), nodes@.len() as int),
{
    let n = nodes.len();
    let fwd = forward_adjacency(nodes);
    let bwd = backward_adjacency(nodes);
    let mut starts: Vec<usize> = Vec::new();
    let mut i: usize = 0;
    while i < roots.len()
        invariant
            i <= roots@.len(),
            starts@ == root_indices(nodes@, roots@.subrange(0, i as int)),
        decreases roots.len() - i,
    {
        assert(roots@.subrange(0, i + 1).drop_last() =~= roots@.subrange(0, i as int));
        match index_of(nodes, roots[i].as_str()) {
            Some(x) => {
                starts.push(x);
            },
            None => {},
        }
        assert(starts@ =~= root_indices(nodes@, roots@.subrange(0, i + 1)));
        i = i + 1;
    }
    assert(roots@.subrange(0, roots@.len() as int) =~= roots@);
    let mut sinks: Vec<usize> = Vec::new();
    let mut i: usize = 0;
    while i < n
        invariant
            n == nodes@.len(),
            i <= n,
            sinks@ == sink_indices(nodes@, i as int),
        decreases n - i,
    {
        if matches!(nodes[i].step, NodeStep::Sink) {
            sinks.push(i);
        }
        assert(sinks@ =~= sink_indices(nodes@, i + 1));
        i = i + 1;
    }
    let from_source = reach(&fwd, &starts);
    let to_sink = reach(&bwd, &sinks);
    let mut unreached_ids: Vec<String> = Vec::new();
    let mut sinkless_ids: Vec<String> = Vec::new();
    let mut i: usize = 0;
    while i < n
        invariant
            n == nodes@.len(),
            i <= n,
            from_source@.len() == n,
            to_sink@.len() == n,
            forall|v: int| 0 <= v < n ==> (#[trigger] from_source@[v] <==> reachable(fwd@, starts@, v)),
            forall|v: int| 0 <= v < n ==> (#[trigger] to_sink@[v] <==> reachable(bwd@, sinks@, v)),
            unreached_ids@ == never_reached(nodes@, fwd@, starts@, i as int),
            sinkless_ids@ == sinkless(nodes@, bwd@, sinks@, i as int),
        decreases n - i,
    {
        if !from_source[i] {
            unreached_ids.push(nodes[i].id.clone());
        }
        if !matches!(nodes[i].step, NodeStep::Sink) && !to_sink[i] {
            sinkless_ids.push(nodes[i].id.clone());
        }
        assert(unreached_ids@ =~= never_reached(nodes@, fwd@, starts@, i + 1));
        assert(sinkless_ids@ =~= sinkless(nodes@, bwd@, sinks@, i + 1));
        i = i + 1;
    }
    proof {
        assert forall|adj: Seq<Vec<usize>>| #[trigger] edges_match(adj, nodes@, true) implies unreached_ids@
            == never_reached(nodes@, adj, starts@, n as int) by {
            lemma_never_reached_same(nodes@, fwd@, adj, starts@, n as int);
        }
        assert forall|adj: Seq<Vec<usize>>| #[trigger] edges_match(adj, nodes@, false) implies sinkless_ids@
            == sinkless(nodes@, adj, sinks@, n as int) by {
            lemma_sinkless_same(nodes@, bwd@, adj, sinks@, n as int);
        }
    }
    (unreached_ids, sinkless_ids)
}

proof fn lemma_never_reached_same(nodes: Seq<Node>, a: Seq<Vec<usize>>, b: Seq<Vec<usize>>, starts: Seq<usize>, k: int)
    requires
        a.len() == b.len(),
        forall|u: int, w: int| 0 <= u < a.len() && 0 <= w < a.len() ==> (#[trigger] has_edge(a, u, w) <==> has_edge(b, u, w)),
    ensures
        never_reached(nodes, a, starts, k) == never_reached(nodes, b, starts, k),
    decreases k,
{
    if k > 0 {
        lemma_never_reached_same(nodes, a, b, starts, k - 1);
        lemma_same_edges_reach(a, b, starts, k - 1);
    }
}

proof fn lemma_sinkless_same(nodes: Seq<Node>, a: Seq<Vec<usize>>, b: Seq<Vec<usize>>, sinks: Seq<usize>, k: int)
    requires
        a.len() == b.len(),
        forall|u: int, w: int| 0 <= u < a.len() && 0 <= w < a.len() ==> (#[trigger] has_edge(a, u, w) <==> has_edge(b, u, w)),
    ensures
        sinkless(nodes, a, sinks, k) == sinkless(nodes, b, sinks, k),
    decreases k,
{
    if k > 0 {
        lemma_sinkless_same(nodes, a, b, sinks, k - 1);
        lemma_same_edges_reach(a, b, sinks, k - 1);
    }
}

} // verus!
