//! Flow graph: construction from the flow description, routing, and
//! structural validation.

use vstd::prelude::*;

use crate::json::Json;
use crate::keyed::{find_key, has_key, lemma_lookup_at, unique_keys, Keyed};
use crate::runtime::kahn::acyclic;
use crate::runtime::node::{
    control_routes, copy_routes, distinct_ids, extra_routes, has_explicit_routes, routes_explicitly, ControlNode,
    ErrorPolicy, Node, NodeStep, SwitchCase,
};
use crate::runtime::routes::{
    capped, check_acyclic, count_incoming, distinct_strings, entry_pairs, first_violation, index_pairs,
    lemma_no_violation_known, occurrences, route_pairs, validate_targets, GraphError, GraphErrorView,
    Route, StepRoutes,
};
use crate::text::dup_opt;

verus! {

/// What a step does when it fails.
#[derive(Debug, Clone, Copy, PartialEq, Eq, Structural)]
pub enum OnError {
    Fail,
    Continue,
    Retry,
}

/// The retry settings of a step.
#[derive(Debug, Clone, Copy, PartialEq, Eq, Structural)]
pub struct RetrySpec {
    pub max: u32,
    pub backoff_millis: u64,
}

/// One step of a flow, as declared.
#[derive(Debug)]
pub struct StepSpec {
    pub id: String,
    /// The step's own condition.
    pub when: Option<String>,
    pub step: NodeStep,
    /// `None` means the default, [`OnError::Fail`].
    pub on_error: Option<OnError>,
    pub retry: Option<RetrySpec>,
    /// The step's initial state, when it keeps one.
    pub state: Option<Json>,
}

impl Keyed for StepSpec {
    open spec fn key(&self) -> Seq<char> {
        self.id@
    }

    fn key_str(&self) -> (r: &str) {
        self.id.as_str()
    }
}

/// An explicit edge between two steps.
#[derive(Debug)]
pub struct EdgeSpec {
    pub from: String,
    pub to: String,
    pub when: Option<String>,
}

/// A flow: its steps in declaration order and its explicit edges.
#[derive(Debug)]
pub struct FlowSpec {
    pub name: String,
    pub steps: Vec<StepSpec>,
    pub edges: Vec<EdgeSpec>,
}

/// The error policy a step resolves to.
pub open spec fn policy_of(s: StepSpec) -> Result<ErrorPolicy, GraphErrorView> {
    match s.on_error {
        Some(OnError::Continue) => Ok(ErrorPolicy::Continue),
        Some(OnError::Retry) => match s.retry {
            Some(r) => Ok(ErrorPolicy::Retry { max: r.max, backoff_millis: r.backoff_millis }),
            None => Err(GraphErrorView::MissingRetry { step: s.id@ }),
        },
        _ => Ok(ErrorPolicy::Fail),
    }
}

/// The implicit route of step `i` when the flow declares no edges: to the
/// next step, unless the step routes by itself.
pub open spec fn chain_route(steps: Seq<StepSpec>, i: int) -> Seq<Route> {
    if i + 1 < steps.len() && !routes_explicitly(steps[i].step) {
        seq![Route { to: steps[i + 1].id, when: None }]
    } else {
        Seq::empty()
    }
}

/// The route an explicit edge stands for.
pub open spec fn edge_route(e: EdgeSpec) -> Route {
    Route { to: e.to, when: e.when }
}

/// The routes of the edges leaving `id`, in declaration order.
pub open spec fn edges_from(edges: Seq<EdgeSpec>, id: Seq<char>) -> Seq<Route>
    decreases edges.len(),
{
    if edges.len() == 0 {
        Seq::empty()
    } else {
        edges_from(edges.drop_last(), id) + if edges.last().from@ == id {
            seq![edge_route(edges.last())]
        } else {
            Seq::empty()
        }
    }
}

/// The routes leaving step `i`: its chained or declared routes, then the
/// routes its control node adds.
pub open spec fn node_routes(flow: FlowSpec, i: int) -> Seq<Route> {
    (if flow.edges@.len() == 0 {
        chain_route(flow.steps@, i)
    } else {
        edges_from(flow.edges@, flow.steps@[i].id@)
    }) + control_routes(flow.steps@[i].step)
}

/// The (source, target) pairs of the routes of the first `k` steps.
pub open spec fn step_pairs(flow: FlowSpec, k: int) -> Seq<(Seq<char>, Seq<char>)>
    decreases k,
{
    if k <= 0 {
        Seq::empty()
    } else {
        step_pairs(flow, k - 1) + node_routes(flow, k - 1).map_values(
            |r: Route| (flow.steps@[k - 1].id@, r.to@),
        )
    }
}

/// The (source, target) pairs of edges that leave no declared step.
pub open spec fn stray_pairs(edges: Seq<EdgeSpec>, steps: Seq<StepSpec>) -> Seq<(Seq<char>, Seq<char>)>
    decreases edges.len(),
{
    if edges.len() == 0 {
        Seq::empty()
    } else {
        stray_pairs(edges.drop_last(), steps) + if !has_key(steps, edges.last().from@) {
            seq![(edges.last().from@, edges.last().to@)]
        } else {
            Seq::empty()
        }
    }
}

/// Every (source, target) pair of the flow's routes.
pub open spec fn flow_pairs(flow: FlowSpec) -> Seq<(Seq<char>, Seq<char>)> {
    step_pairs(flow, flow.steps@.len() as int) + stray_pairs(flow.edges@, flow.steps@)
}

/// Resolve a step's error policy.
pub fn resolve_policy(step: &StepSpec) -> (r: Result<ErrorPolicy, GraphError>)
    ensures
        match r {
            Ok(p) => policy_of(*step) == Ok::<ErrorPolicy, GraphErrorView>(p),
            Err(e) => policy_of(*step) == Err::<ErrorPolicy, GraphErrorView>(e@),
        },
{
    match step.on_error {
        Some(OnError::Continue) => Ok(ErrorPolicy::Continue),
        Some(OnError::Retry) => match step.retry {
            Some(r) => Ok(ErrorPolicy::Retry { max: r.max, backoff_millis: r.backoff_millis }),
            None => Err(GraphError::MissingRetry { step: step.id.clone() }),
        },
        _ => Ok(ErrorPolicy::Fail),
    }
}

/// The routes of the edges leaving `id`.
fn routes_from_edges(edges: &Vec<EdgeSpec>, id: &str) -> (r: Vec<Route>)
    ensures
        r@ == edges_from(edges@, id@),
{
    let mut r: Vec<Route> = Vec::new();
    let mut j: usize = 0;
    while j < edges.len()
        invariant
            j <= edges@.len(),
            r@ == edges_from(edges@.subrange(0, j as int), id@),
        decreases edges.len() - j,
    {
        let e = &edges[j];
        assert(edges@.subrange(0, j + 1).drop_last() =~= edges@.subrange(0, j as int));
        if crate::text::str_eq(e.from.as_str(), id) {
            r.push(Route { to: e.to.clone(), when: dup_opt(&e.when) });
            assert(r@ =~= edges_from(edges@.subrange(0, j + 1), id@));
        } else {
            assert(r@ =~= edges_from(edges@.subrange(0, j + 1), id@));
        }
        j = j + 1;
    }
    assert(edges@.subrange(0, edges@.len() as int) =~= edges@);
    r
}

/// The route table of a flow: one entry per step, in declaration order,
/// with the routes leaving it, then one entry per edge that leaves no
/// declared step. Conditions are kept as written; whether they parse is
/// checked by [`FlowGraph::build_checked`].
pub fn wire_routes(flow: &FlowSpec) -> (r: Vec<StepRoutes>)
    ensures
        r@.len() >= flow.steps@.len(),
        forall|i: int|
            0 <= i < flow.steps@.len() ==> (#[trigger] r@[i]).from@ == flow.steps@[i].id@ && r@[i].routes@
                == node_routes(*flow, i),
        route_pairs(r@) == flow_pairs(*flow),
{
    let mut table: Vec<StepRoutes> = Vec::new();
    let n = flow.steps.len();
    let mut i: usize = 0;
    while i < n
        invariant
            n == flow.steps@.len(),
            i <= n,
            table@.len() == i,
            forall|k: int|
                0 <= k < i ==> (#[trigger] table@[k]).from@ == flow.steps@[k].id@ && table@[k].routes@
                    == node_routes(*flow, k),
            route_pairs(table@) == step_pairs(*flow, i as int),
        decreases n - i,
    {
        let s = &flow.steps[i];
        let mut routes: Vec<Route> = if flow.edges.len() == 0 {
            let mut c: Vec<Route> = Vec::new();
            if i + 1 < n && !has_explicit_routes(&s.step) {
                c.push(Route { to: flow.steps[i + 1].id.clone(), when: None });
            }
            assert(c@ =~= chain_route(flow.steps@, i as int));
            c
        } else {
            routes_from_edges(&flow.edges, s.id.as_str())
        };
        let mut extra = extra_routes(&s.step);
        routes.append(&mut extra);
        let entry = StepRoutes { from: s.id.clone(), routes };
        let ghost before = table@;
        table.push(entry);
        proof {
            assert(table@.drop_last() =~= before);
            assert(entry_pairs(entry) =~= node_routes(*flow, i as int).map_values(
                |r: Route| (flow.steps@[i as int].id@, r.to@),
            ));
        }
        i = i + 1;
    }
    let ghost stepped = table@;
    let mut j: usize = 0;
    while j < flow.edges.len()
        invariant
            n == flow.steps@.len(),
            table@.len() >= n,
            table@.subrange(0, n as int) == stepped.subrange(0, n as int),
            stepped.len() == n,
            forall|k: int|
                0 <= k < n ==> (#[trigger] stepped[k]).from@ == flow.steps@[k].id@ && stepped[k].routes@
                    == node_routes(*flow, k),
            j <= flow.edges@.len(),
            route_pairs(table@) == step_pairs(*flow, n as int) + stray_pairs(
                flow.edges@.subrange(0, j as int),
                flow.steps@,
            ),
        decreases flow.edges.len() - j,
    {
        let e = &flow.edges[j];
        assert(flow.edges@.subrange(0, j + 1).drop_last() =~= flow.edges@.subrange(0, j as int));
        if find_key(&flow.steps, e.from.as_str()).is_none() {
            let mut routes: Vec<Route> = Vec::new();
            routes.push(Route { to: e.to.clone(), when: dup_opt(&e.when) });
            let entry = StepRoutes { from: e.from.clone(), routes };
            let ghost before = table@;
            table.push(entry);
            proof {
                assert(table@.drop_last() =~= before);
                assert(entry_pairs(entry) =~= seq![(e.from@, e.to@)]);
                assert(table@.subrange(0, n as int) =~= before.subrange(0, n as int));
                assert(route_pairs(table@) =~= step_pairs(*flow, n as int) + stray_pairs(
                    flow.edges@.subrange(0, j + 1),
                    flow.steps@,
                ));
            }
        } else {
            assert(stray_pairs(flow.edges@.subrange(0, j + 1), flow.steps@) =~= stray_pairs(
                flow.edges@.subrange(0, j as int),
                flow.steps@,
            ));
        }
        j = j + 1;
    }
    proof {
        assert(flow.edges@.subrange(0, flow.edges@.len() as int) =~= flow.edges@);
        assert forall|i: int| 0 <= i < n implies (#[trigger] table@[i]).from@ == flow.steps@[i].id@
            && table@[i].routes@ == node_routes(*flow, i) by {
            assert(table@[i] == table@.subrange(0, n as int)[i]);
            assert(stepped[i] == stepped.subrange(0, n as int)[i]);
        }
    }
    table
}

/// The first step from position `k` on whose error policy does not resolve.
pub open spec fn policy_error_from(steps: Seq<StepSpec>, k: int) -> Option<GraphErrorView>
    decreases steps.len() - k,
{
    if k < 0 || k >= steps.len() {
        None
    } else {
        match policy_of(steps[k]) {
            Err(e) => Some(e),
            Ok(_) => policy_error_from(steps, k + 1),
        }
    }
}

/// The first sink from position `k` on that has routes leaving it.
pub open spec fn sink_error_from(flow: FlowSpec, k: int) -> Option<GraphErrorView>
    decreases flow.steps@.len() - k,
{
    if k < 0 || k >= flow.steps@.len() {
        None
    } else if flow.steps@[k].step is Sink && node_routes(flow, k).len() > 0 {
        Some(GraphErrorView::SinkHasEdges { id: flow.steps@[k].id@ })
    } else {
        sink_error_from(flow, k + 1)
    }
}

/// The ids of the steps, in declaration order.
pub open spec fn step_ids(steps: Seq<StepSpec>) -> Seq<String> {
    steps.map_values(|s: StepSpec| s.id)
}

/// Why a flow cannot be built, checked in this order: an error policy that
/// does not resolve, a route to an unknown step or to itself, a cycle, a
/// sink with outgoing routes.
pub open spec fn plan_error(flow: FlowSpec) -> Option<GraphErrorView> {
    let ids = step_ids(flow.steps@);
    match policy_error_from(flow.steps@, 0) {
        Some(e) => Some(e),
        None => match first_violation(flow_pairs(flow), ids) {
            Some(e) => Some(e),
            None => if !acyclic(ids.len(), index_pairs(flow_pairs(flow), ids)) {
                Some(GraphErrorView::Cycle)
            } else {
                sink_error_from(flow, 0)
            },
        },
    }
}

/// The ids of the source steps, in declaration order.
pub open spec fn sources(steps: Seq<StepSpec>) -> Seq<String>
    decreases steps.len(),
{
    if steps.len() == 0 {
        Seq::empty()
    } else {
        sources(steps.drop_last()) + if steps.last().step is Source {
            seq![steps.last().id]
        } else {
            Seq::empty()
        }
    }
}

/// Node `nd` is step `i` of the flow, wired.
pub open spec fn node_planned(nd: Node, flow: FlowSpec, i: int) -> bool {
    let s = flow.steps@[i];
    &&& nd.id == s.id
    &&& nd.when == s.when
    &&& policy_of(s) == Ok::<ErrorPolicy, GraphErrorView>(nd.policy)
    &&& nd.step == s.step
    &&& nd.state == s.state
    &&& nd.routes@ == node_routes(flow, i)
    &&& nd.incoming == capped(occurrences(flow_pairs(flow), s.id@))
}

/// `g` is the graph of `flow`: one node per step, wired, in declaration
/// order, with distinct ids, and the sources as roots.
pub open spec fn graph_of(flow: FlowSpec, g: FlowGraph) -> bool {
    &&& g.name == flow.name
    &&& g.nodes@.len() == flow.steps@.len()
    &&& forall|i: int| 0 <= i < flow.steps@.len() ==> node_planned(#[trigger] g.nodes@[i], flow, i)
    &&& distinct_ids(g.nodes@)
    &&& g.roots@ == sources(flow.steps@)
}

/// The first step from position `k` on whose condition does not parse
/// (`conditions[k]` is the parser's error for step `k`'s condition) or,
/// failing that, whose error policy does not resolve; each step's condition
/// is checked before its policy.
pub open spec fn step_problem_from(steps: Seq<StepSpec>, conditions: Seq<Option<String>>, k: int) -> Option<GraphErrorView>
    decreases steps.len() - k,
{
    if k < 0 || k >= steps.len() {
        None
    } else if k < conditions.len() && conditions[k] is Some {
        Some(GraphErrorView::InvalidWhen { step: steps[k].id@, error: conditions[k]->0@ })
    } else {
        match policy_of(steps[k]) {
            Err(e) => Some(e),
            Ok(_) => step_problem_from(steps, conditions, k + 1),
        }
    }
}

/// The first edge whose condition does not parse (`conditions[j]` is the
/// parser's error for edge `j`'s condition).
pub open spec fn edge_problem(edges: Seq<EdgeSpec>, conditions: Seq<Option<String>>) -> Option<GraphErrorView>
    decreases edges.len(),
{
    if edges.len() == 0 {
        None
    } else {
        match edge_problem(edges.drop_last(), conditions) {
            Some(e) => Some(e),
            None => {
                let j = edges.len() - 1;
                if j < conditions.len() && conditions[j] is Some {
                    Some(GraphErrorView::InvalidEdgeWhen { from: edges[j].from@, to: edges[j].to@, error: conditions[j]->0@ })
                } else {
                    None
                }
            },
        }
    }
}

/// Why a flow with parsed conditions cannot be built, checked in this
/// order: step by step, a condition that does not parse, then an error
/// policy that does not resolve; an edge condition that does not parse
/// (edges are read only when the flow declares some); then the rest of
/// [`plan_error`].
pub open spec fn checked_plan_error(
    flow: FlowSpec,
    step_conditions: Seq<Option<String>>,
    edge_conditions: Seq<Option<String>>,
) -> Option<GraphErrorView> {
    match step_problem_from(flow.steps@, step_conditions, 0) {
        Some(e) => Some(e),
        None => match (if flow.edges@.len() == 0 {
            None
        } else {
            edge_problem(flow.edges@, edge_conditions)
        }) {
            Some(e) => Some(e),
            None => plan_error(flow),
        },
    }
}

/// With no step problem from `k` on, no step's policy fails from `k` on.
proof fn lemma_no_step_problem(steps: Seq<StepSpec>, conditions: Seq<Option<String>>, k: int)
    requires
        0 <= k <= steps.len(),
        step_problem_from(steps, conditions, k) is None,
    ensures
        policy_error_from(steps, k) is None,
    decreases steps.len() - k,
{
    if k < steps.len() {
        lemma_no_step_problem(steps, conditions, k + 1);
    }
}

/// The flow graph: one node per step, in declaration order, and the
/// source steps where records enter.
#[derive(Debug)]
pub struct FlowGraph {
    pub name: String,
    pub nodes: Vec<Node>,
    pub roots: Vec<String>,
}

impl FlowGraph {
    /// Build the graph from a flow whose step ids are unique.
    ///
    /// Fails when a step retries without retry settings, a route points at
    /// an unknown step or at its own step, the routes contain a cycle, or a
    /// sink has outgoing routes.
    pub fn build(flow: FlowSpec) -> (r: Result<FlowGraph, GraphError>)
        requires
            unique_keys(flow.steps@),
            flow.steps@.len() < usize::MAX,
        ensures
            match r {
                Ok(g) => plan_error(flow) is None && graph_of(flow, g),
                Err(e) => plan_error(flow) == Some(e@),
            },
    {
        let ghost f = flow;
        let n = flow.steps.len();
        let mut policies: Vec<ErrorPolicy> = Vec::new();
        let mut i: usize = 0;
        while i < n
            invariant
                f == flow,
                n == flow.steps@.len(),
                i <= n,
                policies@.len() == i,
                forall|k: int| 0 <= k < i ==> policy_of(flow.steps@[k]) == Ok::<ErrorPolicy, GraphErrorView>(#[trigger] policies@[k]),
                policy_error_from(flow.steps@, 0) == policy_error_from(flow.steps@, i as int),
            decreases n - i,
        {
            match resolve_policy(&flow.steps[i]) {
                Ok(p) => policies.push(p),
                Err(e) => {
                    assert(policy_error_from(flow.steps@, 0) == Some(e@));
                    assert(plan_error(f) == Some(e@));
                    return Err(e);
                },
            }
            i = i + 1;
        }
        let mut ids: Vec<String> = Vec::new();
        let mut i: usize = 0;
        while i < n
            invariant
                n == flow.steps@.len(),
                i <= n,
                ids@ == step_ids(flow.steps@).subrange(0, i as int),
            decreases n - i,
        {
            ids.push(flow.steps[i].id.clone());
            assert(ids@ =~= step_ids(flow.steps@).subrange(0, i + 1));
            i = i + 1;
        }
        proof {
            assert(ids@ =~= step_ids(flow.steps@));
            assert forall|a: int, b: int| 0 <= a < ids@.len() && 0 <= b < ids@.len() && a != b implies (#[trigger] ids@[a])@ != (#[trigger] ids@[b])@ by {
                assert(flow.steps@[a].key() != flow.steps@[b].key());
            }
            assert(distinct_strings(ids@));
        }
        let table = wire_routes(&flow);
        let incoming = count_incoming(&table);
        match validate_targets(&table, &ids) {
            Err(e) => return Err(e),
            Ok(()) => {},
        }
        proof {
            lemma_no_violation_known(route_pairs(table@), ids@);
        }
        proof {
            assert(ids@ == step_ids(f.steps@));
            assert(policy_error_from(f.steps@, 0) is None);
            assert(first_violation(flow_pairs(f), ids@) is None);
        }
        if check_acyclic(&table, &ids).is_err() {
            assert(!acyclic(ids@.len(), index_pairs(flow_pairs(f), ids@)));
            assert(plan_error(flow) == Some(GraphErrorView::Cycle));
            return Err(GraphError::Cycle);
        }
        assert(plan_error(flow) == sink_error_from(flow, 0));
        let mut i: usize = 0;
        while i < n
            invariant
                f == flow,
                n == flow.steps@.len(),
                i <= n,
                table@.len() >= n,
                forall|k: int|
                    0 <= k < n ==> (#[trigger] table@[k]).from@ == flow.steps@[k].id@ && table@[k].routes@
                        == node_routes(flow, k),
                sink_error_from(flow, 0) == sink_error_from(flow, i as int),
                plan_error(flow) == sink_error_from(flow, 0),
            decreases n - i,
        {
            if matches!(flow.steps[i].step, NodeStep::Sink) && table[i].routes.len() > 0 {
                let e = GraphError::SinkHasEdges { id: flow.steps[i].id.clone() };
                assert(sink_error_from(flow, 0) == Some(e@));
                return Err(e);
            }
            i = i + 1;
        }
        let mut roots: Vec<String> = Vec::new();
        let mut i: usize = 0;
        while i < n
            invariant
                n == flow.steps@.len(),
                i <= n,
                roots@ == sources(flow.steps@.subrange(0, i as int)),
            decreases n - i,
        {
            assert(flow.steps@.subrange(0, i + 1).drop_last() =~= flow.steps@.subrange(0, i as int));
            if matches!(flow.steps[i].step, NodeStep::Source) {
                roots.push(flow.steps[i].id.clone());
            }
            assert(roots@ =~= sources(flow.steps@.subrange(0, i + 1)));
            i = i + 1;
        }
        assert(flow.steps@.subrange(0, n as int) =~= flow.steps@);
        let name = flow.name;
        let mut steps = flow.steps;
        let mut nodes: Vec<Node> = Vec::new();
        let mut k: usize = 0;
        assert(steps@ =~= f.steps@.subrange(0, n as int));
        while steps.len() > 0
            invariant
                n == f.steps@.len(),
                k + steps@.len() == n,
                steps@ == f.steps@.subrange(k as int, n as int),
                nodes@.len() == k,
                policies@.len() == n,
                table@.len() >= n,
                forall|q: int| 0 <= q < n ==> policy_of(f.steps@[q]) == Ok::<ErrorPolicy, GraphErrorView>(#[trigger] policies@[q]),
                forall|q: int|
                    0 <= q < n ==> (#[trigger] table@[q]).from@ == f.steps@[q].id@ && table@[q].routes@
                        == node_routes(f, q),
                route_pairs(table@) == flow_pairs(f),
                unique_keys(incoming@),
                forall|id: Seq<char>|
                    #[trigger] crate::keyed::lookup(incoming@, id) matches Some(c) ==> c.count == capped(occurrences(route_pairs(table@), id)),
                forall|id: Seq<char>| #[trigger] has_key(incoming@, id) == (occurrences(route_pairs(table@), id) > 0),
                forall|q: int| 0 <= q < k ==> node_planned(#[trigger] nodes@[q], f, q),
            decreases steps.len(),
        {
            let s = steps.remove(0);
            assert(s == f.steps@[k as int]);
            let routes = copy_routes(&table[k].routes);
            let count = match find_key(&incoming, s.id.as_str()) {
                Some(x) => {
                    proof {
                        lemma_lookup_at(incoming@, x as int);
                    }
                    incoming[x].count
                },
                None => 0,
            };
            let node = Node {
                id: s.id,
                when: s.when,
                policy: policies[k],
                step: s.step,
                state: s.state,
                routes,
                incoming: count,
            };
            nodes.push(node);
            k = k + 1;
            assert(steps@ =~= f.steps@.subrange(k as int, n as int));
        }
        proof {
            assert forall|i: int, j: int|
                0 <= i < nodes@.len() && 0 <= j < nodes@.len() && i != j implies #[trigger] nodes@[i].id@ != #[trigger] nodes@[j].id@ by {
                assert(node_planned(nodes@[i], f, i));
                assert(node_planned(nodes@[j], f, j));
                assert(f.steps@[i].key() != f.steps@[j].key());
            }
        }
        Ok(FlowGraph { name, nodes, roots })
    }
}

impl FlowGraph {
    /// Build the graph from a flow whose conditions were parsed:
    /// `step_conditions[k]` is the parser's error for step `k`'s `when`
    /// (`None` when it parsed or there is none), `edge_conditions[j]` the
    /// same for edge `j`. Fails on the first problem in the order of
    /// [`checked_plan_error`].
    pub fn build_checked(
        flow: FlowSpec,
        step_conditions: &Vec<Option<String>>,
        edge_conditions: &Vec<Option<String>>,
    ) -> (r: Result<FlowGraph, GraphError>)
        requires
            unique_keys(flow.steps@),
            flow.steps@.len() < usize::MAX,
            step_conditions@.len() == flow.steps@.len(),
            edge_conditions@.len() == flow.edges@.len(),
        ensures
            match r {
                Ok(g) => checked_plan_error(flow, step_conditions@, edge_conditions@) is None && graph_of(flow, g),
                Err(e) => checked_plan_error(flow, step_conditions@, edge_conditions@) == Some(e@),
            },
    {
        let n = flow.steps.len();
        let mut k: usize = 0;
        while k < n
            invariant
                n == flow.steps@.len(),
                k <= n,
                step_conditions@.len() == n,
                step_problem_from(flow.steps@, step_conditions@, 0) == step_problem_from(flow.steps@, step_conditions@, k as int),
            decreases n - k,
        {
            match &step_conditions[k] {
                Some(error) => {
                    return Err(GraphError::InvalidWhen { step: flow.steps[k].id.clone(), error: error.clone() });
                },
                None => {},
            }
            match resolve_policy(&flow.steps[k]) {
                Err(e) => {
                    return Err(e);
                },
                Ok(_) => {},
            }
            k = k + 1;
        }
        assert(step_problem_from(flow.steps@, step_conditions@, n as int) is None);
        assert(step_problem_from(flow.steps@, step_conditions@, 0) is None);
        proof {
            lemma_no_step_problem(flow.steps@, step_conditions@, 0);
        }
        if flow.edges.len() > 0 {
            let m = flow.edges.len();
            let mut j: usize = 0;
            while j < m
                invariant
                    m == flow.edges@.len(),
                    j <= m,
                    edge_conditions@.len() == m,
                    m > 0,
                    step_problem_from(flow.steps@, step_conditions@, 0) is None,
                    edge_problem(flow.edges@.subrange(0, j as int), edge_conditions@) is None,
                decreases m - j,
            {
                assert(flow.edges@.subrange(0, j + 1).drop_last() =~= flow.edges@.subrange(0, j as int));
                match &edge_conditions[j] {
                    Some(error) => {
                        proof {
                            lemma_edge_problem_extends(flow.edges@, edge_conditions@, j as int);
                        }
                        return Err(GraphError::InvalidEdgeWhen {
                            from: flow.edges[j].from.clone(),
                            to: flow.edges[j].to.clone(),
                            error: error.clone(),
                        });
                    },
                    None => {},
                }
                j = j + 1;
            }
            assert(flow.edges@.subrange(0, m as int) =~= flow.edges@);
        }
        FlowGraph::build(flow)
    }

    /// The node with id `id` (the first, should ids repeat).
    pub fn node(&self, id: &str) -> (r: Option<&Node>)
        ensures
            match r {
                Some(n) => crate::runtime::warnings::node_index(self.nodes@, id@) >= 0 && *n
                    == self.nodes@[crate::runtime::warnings::node_index(self.nodes@, id@)],
                None => crate::runtime::warnings::node_index(self.nodes@, id@) == -1,
            },
    {
        match crate::runtime::warnings::index_of(&self.nodes, id) {
            Some(i) => Some(&self.nodes[i]),
            None => None,
        }
    }
}

/// When the edges before `j` have no problem and edge `j`'s condition does
/// not parse, that is the first problem of every longer list of edges.
proof fn lemma_edge_problem_extends(edges: Seq<EdgeSpec>, conditions: Seq<Option<String>>, j: int)
    requires
        0 <= j < edges.len(),
        j < conditions.len(),
        conditions[j] is Some,
        edge_problem(edges.subrange(0, j), conditions) is None,
    ensures
        edge_problem(edges, conditions) == Some(
            GraphErrorView::InvalidEdgeWhen { from: edges[j].from@, to: edges[j].to@, error: conditions[j]->0@ },
        ),
    decreases edges.len() - j,
{
    if edges.len() == j + 1 {
        assert(edges.drop_last() =~= edges.subrange(0, j));
    } else {
        assert(edges.drop_last().subrange(0, j) =~= edges.subrange(0, j));
        assert(edges.drop_last()[j] == edges[j]);
        lemma_edge_problem_extends(edges.drop_last(), conditions, j);
    }
}

/// A step's error policy follows its `on_error`: `continue` resolves to
/// `Continue`, `fail` or nothing to `Fail`, and `retry` to `Retry` with
/// the step's retry settings (an error naming the step when it has none).
pub proof fn error_policy_follows_on_error(s: StepSpec)
    ensures
        s.on_error == Some(OnError::Continue) ==> policy_of(s) == Ok::<ErrorPolicy, GraphErrorView>(ErrorPolicy::Continue),
        (s.on_error is None || s.on_error == Some(OnError::Fail)) ==> policy_of(s) == Ok::<ErrorPolicy, GraphErrorView>(
            ErrorPolicy::Fail,
        ),
        s.on_error == Some(OnError::Retry) ==> policy_of(s) == match s.retry {
            Some(r) => Ok::<ErrorPolicy, GraphErrorView>(ErrorPolicy::Retry { max: r.max, backoff_millis: r.backoff_millis }),
            None => Err::<ErrorPolicy, GraphErrorView>(GraphErrorView::MissingRetry { step: s.id@ }),
        },
{
}

/// In a built graph each node has the error policy its step asks for: a
/// step with `on_error: continue` is a `Continue` node, and a node fails
/// the run on an error exactly when its step says `fail` or nothing.
pub proof fn built_nodes_keep_error_policies(flow: FlowSpec, g: FlowGraph, i: int)
    requires
        graph_of(flow, g),
        0 <= i < flow.steps@.len(),
    ensures
        flow.steps@[i].on_error == Some(OnError::Continue) <==> g.nodes@[i].policy == ErrorPolicy::Continue,
        (flow.steps@[i].on_error is None || flow.steps@[i].on_error == Some(OnError::Fail)) <==> g.nodes@[i].policy
            == ErrorPolicy::Fail,
        flow.steps@[i].on_error == Some(OnError::Retry) <==> g.nodes@[i].policy is Retry,
{
    assert(node_planned(g.nodes@[i], flow, i));
}

/// In a graph built without edges, a step that routes by itself (a switch,
/// a parallel, or a loop with a body) has only the routes its control node
/// adds and is not chained to the next step; every other step is chained
/// to the next step only (the last step to nothing).
pub proof fn self_routing_steps_are_not_chained(flow: FlowSpec, g: FlowGraph, i: int)
    requires
        graph_of(flow, g),
        0 <= i < flow.steps@.len(),
        flow.edges@.len() == 0,
    ensures
        match flow.steps@[i].step {
            NodeStep::Control(ControlNode::Switch { cases, default }) => g.nodes@[i].routes@ == cases@.map_values(
                |c: SwitchCase| Route { to: c.to, when: None },
            ).push(Route { to: default, when: None }),
            NodeStep::Control(ControlNode::Parallel { branches }) => g.nodes@[i].routes@ == branches@.map_values(
                |b: String| Route { to: b, when: None },
            ),
            NodeStep::Control(ControlNode::Loop { body: Some(t), .. }) => g.nodes@[i].routes@ == seq![Route { to: t, when: None }],
            _ => g.nodes@[i].routes@ == if i + 1 < flow.steps@.len() {
                seq![Route { to: flow.steps@[i + 1].id, when: None }]
            } else {
                Seq::empty()
            },
        },
{
    assert(node_planned(g.nodes@[i], flow, i));
    let chained = chain_route(flow.steps@, i);
    let own = control_routes(flow.steps@[i].step);
    assert(g.nodes@[i].routes@ == chained + own);
    match flow.steps@[i].step {
        NodeStep::Control(ControlNode::Switch { .. }) => {
            assert(chained =~= Seq::<Route>::empty());
            assert(chained + own =~= own);
        },
        NodeStep::Control(ControlNode::Parallel { .. }) => {
            assert(chained =~= Seq::<Route>::empty());
            assert(chained + own =~= own);
        },
        NodeStep::Control(ControlNode::Loop { body: Some(_), .. }) => {
            assert(chained =~= Seq::<Route>::empty());
            assert(chained + own =~= own);
        },
        _ => {
            assert(own =~= Seq::<Route>::empty());
            assert(chained + own =~= chained);
        },
    }
}

} // verus!
