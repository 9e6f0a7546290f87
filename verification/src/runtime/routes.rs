//! Route tables: incoming counts, target validation and cycle detection.

use vstd::prelude::*;

use crate::keyed::{find_key, has_key, lemma_lookup_at, lookup, remove_key, unique_keys, upsert, Keyed};
use crate::runtime::kahn::{acyclic, kahn_acyclic};
use crate::text::{concat3, concat5, str_eq};

verus! {

/// A routing rule from one step to the next, with an optional condition.
#[derive(Debug, Clone)]
pub struct Route {
    pub to: String,
    pub when: Option<String>,
}

/// The routes leaving one step, in order.
#[derive(Debug)]
pub struct StepRoutes {
    pub from: String,
    pub routes: Vec<Route>,
}

impl Keyed for StepRoutes {
    open spec fn key(&self) -> Seq<char> {
        self.from@
    }

    fn key_str(&self) -> (r: &str) {
        self.from.as_str()
    }
}

/// Number of routes pointing at one step.
#[derive(Debug, Clone)]
pub struct IncomingCount {
    pub id: String,
    pub count: usize,
}

impl Keyed for IncomingCount {
    open spec fn key(&self) -> Seq<char> {
        self.id@
    }

    fn key_str(&self) -> (r: &str) {
        self.id.as_str()
    }
}

/// A structural error of a flow graph.
#[derive(Debug, Clone)]
pub enum GraphError {
    /// A route points at a step that does not exist.
    UnknownTarget { from: String, to: String },
    /// A step routes to itself.
    SelfLoop { step: String },
    /// The routes form a cycle.
    Cycle,
    /// A sink has outgoing routes.
    SinkHasEdges { id: String },
    /// A step retries on error but has no retry settings.
    MissingRetry { step: String },
    /// A step's condition does not parse (with the parser's error).
    InvalidWhen { step: String, error: String },
    /// An edge's condition does not parse (with the parser's error).
    InvalidEdgeWhen { from: String, to: String, error: String },
}

/// The mathematical content of a [`GraphError`].
pub ghost enum GraphErrorView {
    UnknownTarget { from: Seq<char>, to: Seq<char> },
    SelfLoop { step: Seq<char> },
    Cycle,
    SinkHasEdges { id: Seq<char> },
    MissingRetry { step: Seq<char> },
    InvalidWhen { step: Seq<char>, error: Seq<char> },
    InvalidEdgeWhen { from: Seq<char>, to: Seq<char>, error: Seq<char> },
}

impl View for GraphError {
    type V = GraphErrorView;

    open spec fn view(&self) -> GraphErrorView {
        match self {
            GraphError::UnknownTarget { from, to } => GraphErrorView::UnknownTarget { from: from@, to: to@ },
            GraphError::SelfLoop { step } => GraphErrorView::SelfLoop { step: step@ },
            GraphError::Cycle => GraphErrorView::Cycle,
            GraphError::SinkHasEdges { id } => GraphErrorView::SinkHasEdges { id: id@ },
            GraphError::MissingRetry { step } => GraphErrorView::MissingRetry { step: step@ },
            GraphError::InvalidWhen { step, error } => GraphErrorView::InvalidWhen { step: step@, error: error@ },
            GraphError::InvalidEdgeWhen { from, to, error } => GraphErrorView::InvalidEdgeWhen {
                from: from@,
                to: to@,
                error: error@,
            },
        }
    }
}

/// The text of a graph error.
pub open spec fn graph_error_text(e: GraphErrorView) -> Seq<char> {
    match e {
        GraphErrorView::UnknownTarget { from, to } => "step '"@ + from + "' routes to unknown step '"@ + to + "'"@,
        GraphErrorView::SelfLoop { step } => "self-loop on step '"@ + step + "' is not allowed"@,
        GraphErrorView::Cycle => "flow contains a cycle; loops must use control steps (foreach/loop)"@,
        GraphErrorView::SinkHasEdges { id } => "sink '"@ + id + "' cannot have outgoing edges"@,
        GraphErrorView::MissingRetry { step } => "step '"@ + step + "': on_error: retry needs a 'retry' block"@,
        GraphErrorView::InvalidWhen { step, error } => "step '"@ + step + "': invalid 'when': "@ + error,
        GraphErrorView::InvalidEdgeWhen { from, to, error } => "edge '"@ + from + "' -> '"@ + to + "': invalid 'when': "@
            + error,
    }
}

impl GraphError {
    /// The human-readable text of the error.
    pub fn message(&self) -> (r: String)
        ensures
            r@ == graph_error_text(self@),
    {
        match self {
            GraphError::UnknownTarget { from, to } => concat5(
                "step '",
                from.as_str(),
                "' routes to unknown step '",
                to.as_str(),
                "'",
            ),
            GraphError::SelfLoop { step } => concat3("self-loop on step '", step.as_str(), "' is not allowed"),
            GraphError::Cycle => "flow contains a cycle; loops must use control steps (foreach/loop)".to_owned(),
            GraphError::SinkHasEdges { id } => concat3("sink '", id.as_str(), "' cannot have outgoing edges"),
            GraphError::MissingRetry { step } => concat3(
                "step '",
                step.as_str(),
                "': on_error: retry needs a 'retry' block",
            ),
            GraphError::InvalidWhen { step, error } => {
                let mut r = concat3("step '", step.as_str(), "': invalid 'when': ");
                r.append(error.as_str());
                r
            },
            GraphError::InvalidEdgeWhen { from, to, error } => {
                let mut r = concat5("edge '", from.as_str(), "' -> '", to.as_str(), "': invalid 'when': ");
                r.append(error.as_str());
                r
            },
        }
    }
}

/// The (source, target) pairs of one step's routes.
pub open spec fn entry_pairs(e: StepRoutes) -> Seq<(Seq<char>, Seq<char>)> {
    e.routes@.map_values(|r: Route| (e.from@, r.to@))
}

/// Every (source, target) pair of a route table, in table order.
pub open spec fn route_pairs(table: Seq<StepRoutes>) -> Seq<(Seq<char>, Seq<char>)>
    decreases table.len(),
{
    if table.len() == 0 {
        Seq::empty()
    } else {
        route_pairs(table.drop_last()) + entry_pairs(table.last())
    }
}

/// The number of pairs whose target is `id`.
pub open spec fn occurrences(pairs: Seq<(Seq<char>, Seq<char>)>, id: Seq<char>) -> nat
    decreases pairs.len(),
{
    if pairs.len() == 0 {
        0
    } else {
        occurrences(pairs.drop_last(), id) + if pairs.last().1 == id {
            1nat
        } else {
            0nat
        }
    }
}

/// No two strings of `s` are equal.
pub open spec fn distinct_strings(s: Seq<String>) -> bool {
    forall|i: int, j: int| 0 <= i < s.len() && 0 <= j < s.len() && i != j ==> (#[trigger] s[i])@ != (#[trigger] s[j])@
}

/// Whether `x` is one of the strings of `s`.
pub open spec fn in_strings(s: Seq<String>, x: Seq<char>) -> bool {
    exists|i: int| 0 <= i < s.len() && (#[trigger] s[i])@ == x
}

/// The position of `x` in `s`, or `s.len()` when absent.
pub open spec fn position(s: Seq<String>, x: Seq<char>) -> int {
    if in_strings(s, x) {
        choose|i: int| 0 <= i < s.len() && (#[trigger] s[i])@ == x
    } else {
        s.len() as int
    }
}

/// The indexed edges of a route table over the step ids: a source outside
/// the ids is numbered `ids.len()`.
pub open spec fn indexed_edges(table: Seq<StepRoutes>, ids: Seq<String>) -> Seq<(usize, usize)> {
    index_pairs(route_pairs(table), ids)
}

/// The (source, target) pairs numbered by their positions among the ids.
pub open spec fn index_pairs(pairs: Seq<(Seq<char>, Seq<char>)>, ids: Seq<String>) -> Seq<(usize, usize)> {
    pairs.map_values(|p: (Seq<char>, Seq<char>)| (position(ids, p.0) as usize, position(ids, p.1) as usize))
}

/// Without a violation, every target is one of the ids.
pub proof fn lemma_no_violation_known(pairs: Seq<(Seq<char>, Seq<char>)>, ids: Seq<String>)
    requires
        first_violation(pairs, ids) is None,
    ensures
        forall|k: int| 0 <= k < pairs.len() ==> in_strings(ids, #[trigger] pairs[k].1),
    decreases pairs.len(),
{
    if pairs.len() > 0 {
        lemma_no_violation_known(pairs.drop_first(), ids);
        assert forall|k: int| 0 <= k < pairs.len() implies in_strings(ids, #[trigger] pairs[k].1) by {
            if k > 0 {
                assert(pairs[k] == pairs.drop_first()[k - 1]);
            }
        }
    }
}

/// The structural violation of one route, if any: an unknown target first,
/// then a self-loop.
pub open spec fn violation(p: (Seq<char>, Seq<char>), ids: Seq<String>) -> Option<GraphErrorView> {
    if !in_strings(ids, p.1) {
        Some(GraphErrorView::UnknownTarget { from: p.0, to: p.1 })
    } else if p.0 == p.1 {
        Some(GraphErrorView::SelfLoop { step: p.0 })
    } else {
        None
    }
}

/// The first violation among `pairs`, in order.
pub open spec fn first_violation(pairs: Seq<(Seq<char>, Seq<char>)>, ids: Seq<String>) -> Option<GraphErrorView>
    decreases pairs.len(),
{
    if pairs.len() == 0 {
        None
    } else {
        match violation(pairs[0], ids) {
            Some(v) => Some(v),
            None => first_violation(pairs.drop_first(), ids),
        }
    }
}

proof fn lemma_first_violation_append(
    a: Seq<(Seq<char>, Seq<char>)>,
    b: Seq<(Seq<char>, Seq<char>)>,
    ids: Seq<String>,
)
    requires
        first_violation(a, ids) is None,
    ensures
        first_violation(a + b, ids) == first_violation(b, ids),
    decreases a.len(),
{
    if a.len() > 0 {
        assert((a + b).drop_first() =~= a.drop_first() + b);
        lemma_first_violation_append(a.drop_first(), b, ids);
    } else {
        assert(a + b =~= b);
    }
}

proof fn lemma_first_violation_single(p: (Seq<char>, Seq<char>), ids: Seq<String>)
    ensures
        first_violation(seq![p], ids) == violation(p, ids),
{
    assert(seq![p].drop_first() =~= Seq::<(Seq<char>, Seq<char>)>::empty());
    assert(first_violation(Seq::<(Seq<char>, Seq<char>)>::empty(), ids) is None);
}

proof fn lemma_first_violation_found(
    a: Seq<(Seq<char>, Seq<char>)>,
    b: Seq<(Seq<char>, Seq<char>)>,
    ids: Seq<String>,
)
    requires
        first_violation(a, ids) is Some,
    ensures
        first_violation(a + b, ids) == first_violation(a, ids),
    decreases a.len(),
{
    if violation(a[0], ids) is None {
        assert((a + b).drop_first() =~= a.drop_first() + b);
        lemma_first_violation_found(a.drop_first(), b, ids);
    } else {
        assert((a + b)[0] == a[0]);
    }
}

/// The position of `x` among `ids`.
pub fn find_string(ids: &Vec<String>, x: &str) -> (r: Option<usize>)
    requires
        distinct_strings(ids@),
    ensures
        match r {
            Some(i) => i < ids@.len() && ids@[i as int]@ == x@ && position(ids@, x@) == i,
            None => !in_strings(ids@, x@) && position(ids@, x@) == ids@.len(),
        },
{
    let mut i: usize = 0;
    while i < ids.len()
        invariant
            distinct_strings(ids@),
            i <= ids@.len(),
            forall|j: int| 0 <= j < i ==> (#[trigger] ids@[j])@ != x@,
        decreases ids.len() - i,
    {
        if str_eq(ids[i].as_str(), x) {
            proof {
                let c = choose|c: int| 0 <= c < ids@.len() && (#[trigger] ids@[c])@ == x@;
                if c != i {
                    assert(ids@[c]@ != ids@[i as int]@);
                }
            }
            return Some(i);
        }
        i = i + 1;
    }
    None
}

/// `n`, or `usize::MAX` where `n` does not fit.
pub open spec fn capped(n: nat) -> nat {
    if n > usize::MAX {
        usize::MAX as nat
    } else {
        n
    }
}

/// Count the routes pointing at each step (a count saturates at `usize::MAX`).
pub fn count_incoming(routes: &Vec<StepRoutes>) -> (r: Vec<IncomingCount>)
    ensures
        unique_keys(r@),
        forall|id: Seq<char>|
            #[trigger] lookup(r@, id) matches Some(c) ==> c.count == capped(occurrences(route_pairs(routes@), id)),
        forall|id: Seq<char>| #[trigger] has_key(r@, id) == (occurrences(route_pairs(routes@), id) > 0),
{
    let mut counts: Vec<IncomingCount> = Vec::new();
    let ghost mut done: Seq<(Seq<char>, Seq<char>)> = Seq::empty();
    let mut i: usize = 0;
    while i < routes.len()
        invariant
            i <= routes@.len(),
            done == route_pairs(routes@.subrange(0, i as int)),
            unique_keys(counts@),
            forall|id: Seq<char>| #[trigger] lookup(counts@, id) matches Some(c) ==> c.count == capped(occurrences(done, id)),
            forall|id: Seq<char>| #[trigger] has_key(counts@, id) == (occurrences(done, id) > 0),
        decreases routes.len() - i,
    {
        let entry = &routes[i];
        let ghost base = done;
        proof {
            assert(routes@.subrange(0, i + 1).drop_last() =~= routes@.subrange(0, i as int));
            assert(route_pairs(routes@.subrange(0, i + 1)) == done + entry_pairs(*entry));
            assert(done + entry_pairs(*entry).subrange(0, 0) =~= done);
        }
        let mut j: usize = 0;
        while j < entry.routes.len()
            invariant
                j <= entry.routes@.len(),
                i < routes@.len(),
                route_pairs(routes@.subrange(0, i + 1)) == base + entry_pairs(*entry),
                done == base + entry_pairs(*entry).subrange(0, j as int),
                unique_keys(counts@),
                forall|id: Seq<char>| #[trigger] lookup(counts@, id) matches Some(c) ==> c.count == capped(occurrences(done, id)),
                forall|id: Seq<char>| #[trigger] has_key(counts@, id) == (occurrences(done, id) > 0),
            decreases entry.routes.len() - j,
        {
            let to = &entry.routes[j].to;
            let ghost before = done;
            proof {
                done = done.push((entry.from@, to@));
                assert(done =~= base + entry_pairs(*entry).subrange(0, j + 1));
                assert(done.drop_last() =~= before);
            }
            match remove_key(&mut counts, to.as_str()) {
                Some(c) => {
                    upsert(&mut counts, IncomingCount { id: to.clone(), count: c.count.saturating_add(1) });
                },
                None => {
                    upsert(&mut counts, IncomingCount { id: to.clone(), count: 1 });
                },
            }
            j = j + 1;
        }
        proof {
            assert(entry_pairs(*entry).subrange(0, entry.routes@.len() as int) =~= entry_pairs(*entry));
            assert(routes@.subrange(0, i + 1).drop_last() =~= routes@.subrange(0, i as int));
        }
        i = i + 1;
    }
    assert(routes@.subrange(0, routes@.len() as int) =~= routes@);
    counts
}


proof fn lemma_pairs_append(a: Seq<StepRoutes>, b: Seq<StepRoutes>)
    ensures
        route_pairs(a + b) == route_pairs(a) + route_pairs(b),
    decreases b.len(),
{
    if b.len() == 0 {
        assert(a + b =~= a);
        assert(route_pairs(a) + route_pairs(b) =~= route_pairs(a));
    } else {
        assert((a + b).drop_last() =~= a + b.drop_last());
        lemma_pairs_append(a, b.drop_last());
        assert(route_pairs(a + b) =~= route_pairs(a) + route_pairs(b));
    }
}

/// Ensure every route points at an existing step and no step routes to
/// itself; the first offending route, in table order, is reported.
pub fn validate_targets(routes: &Vec<StepRoutes>, ids: &Vec<String>) -> (r: Result<(), GraphError>)
    requires
        distinct_strings(ids@),
    ensures
        match r {
            Ok(()) => first_violation(route_pairs(routes@), ids@) is None,
            Err(e) => first_violation(route_pairs(routes@), ids@) == Some(e@),
        },
{
    let ghost mut done: Seq<(Seq<char>, Seq<char>)> = Seq::empty();
    let mut i: usize = 0;
    while i < routes.len()
        invariant
            distinct_strings(ids@),
            i <= routes@.len(),
            done == route_pairs(routes@.subrange(0, i as int)),
            first_violation(done, ids@) is None,
        decreases routes.len() - i,
    {
        let entry = &routes[i];
        let ghost base = done;
        proof {
            assert(routes@.subrange(0, i + 1).drop_last() =~= routes@.subrange(0, i as int));
            assert(done + entry_pairs(*entry).subrange(0, 0) =~= done);
        }
        let mut j: usize = 0;
        while j < entry.routes.len()
            invariant
                distinct_strings(ids@),
                j <= entry.routes@.len(),
                i < routes@.len(),
                *entry == routes@[i as int],
                route_pairs(routes@.subrange(0, i + 1)) == base + entry_pairs(*entry),
                done == base + entry_pairs(*entry).subrange(0, j as int),
                first_violation(done, ids@) is None,
            decreases entry.routes.len() - j,
        {
            let to = &entry.routes[j].to;
            let ghost p = (entry.from@, to@);
            let ghost ep = entry_pairs(*entry);
            let known = find_string(ids, to.as_str()).is_some();
            let self_loop = str_eq(entry.from.as_str(), to.as_str());
            if !known || self_loop {
                let e = if !known {
                    GraphError::UnknownTarget { from: entry.from.clone(), to: to.clone() }
                } else {
                    GraphError::SelfLoop { step: entry.from.clone() }
                };
                proof {
                    assert(violation(p, ids@) == Some(e@));
                    let all = routes@;
                    lemma_pairs_append(all.subrange(0, i + 1), all.subrange(i + 1, all.len() as int));
                    assert(all.subrange(0, i + 1) + all.subrange(i + 1, all.len() as int) =~= all);
                    let rest = route_pairs(all.subrange(i + 1, all.len() as int));
                    assert(ep =~= ep.subrange(0, j as int) + seq![p] + ep.subrange(j + 1, ep.len() as int));
                    assert(route_pairs(all) =~= done + (seq![p] + (ep.subrange(j + 1, ep.len() as int) + rest)));
                    lemma_first_violation_append(done, seq![p] + (ep.subrange(j + 1, ep.len() as int) + rest), ids@);
                    lemma_first_violation_single(p, ids@);
                    lemma_first_violation_found(seq![p], ep.subrange(j + 1, ep.len() as int) + rest, ids@);
                }
                return Err(e);
            }
            proof {
                assert(violation(p, ids@) is None);
                lemma_first_violation_single(p, ids@);
                lemma_first_violation_append(done, seq![p], ids@);
                assert(done.push(p) =~= done + seq![p]);
                done = done.push(p);
                assert(done =~= base + entry_pairs(*entry).subrange(0, j + 1));
            }
            j = j + 1;
        }
        proof {
            assert(entry_pairs(*entry).subrange(0, entry.routes@.len() as int) =~= entry_pairs(*entry));
        }
        i = i + 1;
    }
    assert(routes@.subrange(0, routes@.len() as int) =~= routes@);
    Ok(())
}

/// Every route target is one of the step ids.
pub open spec fn targets_known(table: Seq<StepRoutes>, ids: Seq<String>) -> bool {
    forall|k: int| 0 <= k < route_pairs(table).len() ==> in_strings(ids, #[trigger] route_pairs(table)[k].1)
}

/// Kahn's algorithm over all routes: errors exactly when the routes admit
/// no ranking of the steps, i.e. when they contain a cycle or a route from
/// outside the step set.
pub fn check_acyclic(routes: &Vec<StepRoutes>, ids: &Vec<String>) -> (r: Result<(), GraphError>)
    requires
        distinct_strings(ids@),
        targets_known(routes@, ids@),
        ids@.len() < usize::MAX,
    ensures
        r is Ok <==> acyclic(ids@.len(), indexed_edges(routes@, ids@)),
        r matches Err(e) ==> e@ == GraphErrorView::Cycle,
{
    let n = ids.len();
    let ghost all = route_pairs(routes@);
    let mut edges: Vec<(usize, usize)> = Vec::new();
    let ghost mut done: Seq<(Seq<char>, Seq<char>)> = Seq::empty();
    let mut i: usize = 0;
    while i < routes.len()
        invariant
            distinct_strings(ids@),
            n == ids@.len(),
            all == route_pairs(routes@),
            targets_known(routes@, ids@),
            i <= routes@.len(),
            done == route_pairs(routes@.subrange(0, i as int)),
            edges@ == done.map_values(
                |p: (Seq<char>, Seq<char>)| (position(ids@, p.0) as usize, position(ids@, p.1) as usize),
            ),
        decreases routes.len() - i,
    {
        let entry = &routes[i];
        let ghost base = done;
        proof {
            assert(routes@.subrange(0, i + 1).drop_last() =~= routes@.subrange(0, i as int));
            assert(done + entry_pairs(*entry).subrange(0, 0) =~= done);
            lemma_pairs_append(routes@.subrange(0, i + 1), routes@.subrange(i + 1, routes@.len() as int));
            assert(routes@.subrange(0, i + 1) + routes@.subrange(i + 1, routes@.len() as int) =~= routes@);
        }
        let from = match find_string(ids, entry.from.as_str()) {
            Some(f) => f,
            None => n,
        };
        let mut j: usize = 0;
        while j < entry.routes.len()
            invariant
                distinct_strings(ids@),
                n == ids@.len(),
                all == route_pairs(routes@),
                targets_known(routes@, ids@),
                j <= entry.routes@.len(),
                i < routes@.len(),
                *entry == routes@[i as int],
                from == position(ids@, entry.from@),
                route_pairs(routes@.subrange(0, i + 1)) == base + entry_pairs(*entry),
                all == base + entry_pairs(*entry) + route_pairs(routes@.subrange(i + 1, routes@.len() as int)),
                done == base + entry_pairs(*entry).subrange(0, j as int),
                edges@ == done.map_values(
                    |p: (Seq<char>, Seq<char>)| (position(ids@, p.0) as usize, position(ids@, p.1) as usize),
                ),
            decreases entry.routes.len() - j,
        {
            let to = &entry.routes[j].to;
            let ghost p = (entry.from@, to@);
            proof {
                let k = base.len() + j;
                assert(all[k] == p);
                assert(in_strings(ids@, all[k].1));
            }
            let t = match find_string(ids, to.as_str()) {
                Some(t) => t,
                None => n,
            };
            let ghost before = edges@;
            edges.push((from, t));
            proof {
                done = done.push(p);
                assert(done =~= base + entry_pairs(*entry).subrange(0, j + 1));
                assert(edges@ =~= done.map_values(
                    |p: (Seq<char>, Seq<char>)| (position(ids@, p.0) as usize, position(ids@, p.1) as usize),
                ));
            }
            j = j + 1;
        }
        proof {
            assert(entry_pairs(*entry).subrange(0, entry.routes@.len() as int) =~= entry_pairs(*entry));
        }
        i = i + 1;
    }
    proof {
        assert(routes@.subrange(0, routes@.len() as int) =~= routes@);
        assert(edges@ == indexed_edges(routes@, ids@));
        assert forall|k: int| 0 <= k < edges@.len() implies (#[trigger] edges@[k]).0 <= n && edges@[k].1 < n by {
            assert(in_strings(ids@, all[k].1));
        }
    }
    if kahn_acyclic(n, &edges) {
        Ok(())
    } else {
        Err(GraphError::Cycle)
    }
}

} // verus!
