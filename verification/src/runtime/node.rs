//! Graph node types: what a step executes and how it handles failure.

use vstd::prelude::*;

use crate::json::Json;
use crate::runtime::routes::Route;

verus! {

/// Per-node error policy.
#[derive(Debug, Clone, Copy, PartialEq, Eq, Structural)]
pub enum ErrorPolicy {
    /// Stop the run with the error.
    Fail,
    /// Count the error and drop the record.
    Continue,
    /// Try again up to `max` more times, waiting `backoff_millis` between tries.
    Retry { max: u32, backoff_millis: u64 },
}

/// How a `join` node decides that a correlation group is complete.
#[derive(Debug, Clone, Copy, PartialEq, Eq, Structural)]
pub enum JoinMode {
    /// Every arriving record completes its group.
    Any,
    /// A group completes once every incoming route has delivered.
    All,
    /// A group completes once `n` records arrived.
    N,
}

/// One case of a `switch` node.
#[derive(Debug)]
pub struct SwitchCase {
    /// The condition, as written in the flow.
    pub when: String,
    /// The step that receives the record when the condition holds.
    pub to: String,
}

/// A control node: routing and buffering semantics of the flow.
#[derive(Debug)]
pub enum ControlNode {
    Switch { cases: Vec<SwitchCase>, default: String },
    Foreach { over: String, as_field: Option<String>, max_iterations: usize },
    Loop { while_expr: String, max_iterations: usize, body: Option<String> },
    Parallel { branches: Vec<String> },
    Join { mode: JoinMode, n: usize },
    Delay { millis: u64 },
    Batch { size: Option<usize>, within_millis: Option<u64> },
    State { exprs: Vec<(String, String)> },
    Approve { title: String },
}

/// What a node executes.
#[derive(Debug)]
pub enum NodeStep {
    Source,
    Transform,
    Sink,
    Control(ControlNode),
}

/// One node of the flow graph.
#[derive(Debug)]
pub struct Node {
    pub id: String,
    /// The node's own condition, as written in the flow.
    pub when: Option<String>,
    pub policy: ErrorPolicy,
    pub step: NodeStep,
    /// The initial state, when the node keeps one.
    pub state: Option<Json>,
    /// The routes leaving the node, in order.
    pub routes: Vec<Route>,
    /// Number of routes pointing at this node (used by `join` in `all` mode).
    pub incoming: usize,
}

/// No two nodes share an id.
pub open spec fn distinct_ids(nodes: Seq<Node>) -> bool {
    forall|i: int, j: int|
        0 <= i < nodes.len() && 0 <= j < nodes.len() && i != j ==> #[trigger] nodes[i].id@ != #[trigger] nodes[j].id@
}

/// The routes a control node adds by itself: the cases and default of a
/// `switch`, the branches of a `parallel`, the body of a `loop`.
pub open spec fn control_routes(step: NodeStep) -> Seq<Route> {
    match step {
        NodeStep::Control(ControlNode::Switch { cases, default }) => cases@.map_values(
            |c: SwitchCase| Route { to: c.to, when: None },
        ).push(Route { to: default, when: None }),
        NodeStep::Control(ControlNode::Parallel { branches }) => branches@.map_values(
            |b: String| Route { to: b, when: None },
        ),
        NodeStep::Control(ControlNode::Loop { body: Some(t), .. }) => seq![Route { to: t, when: None }],
        _ => Seq::empty(),
    }
}

/// Whether the node routes by itself, so that implicit chaining skips it.
pub open spec fn routes_explicitly(step: NodeStep) -> bool {
    match step {
        NodeStep::Control(ControlNode::Switch { .. }) => true,
        NodeStep::Control(ControlNode::Parallel { .. }) => true,
        NodeStep::Control(ControlNode::Loop { body: Some(_), .. }) => true,
        _ => false,
    }
}

/// A copy of a route.
pub fn copy_route(r: &Route) -> (c: Route)
    ensures
        c == *r,
{
    Route { to: r.to.clone(), when: crate::text::dup_opt(&r.when) }
}

/// A copy of a list of routes.
pub fn copy_routes(v: &Vec<Route>) -> (c: Vec<Route>)
    ensures
        c@ == v@,
{
    let mut c: Vec<Route> = Vec::new();
    let mut i: usize = 0;
    while i < v.len()
        invariant
            i <= v@.len(),
            c@ == v@.subrange(0, i as int),
        decreases v.len() - i,
    {
        c.push(copy_route(&v[i]));
        i = i + 1;
    }
    assert(v@.subrange(0, v@.len() as int) =~= v@);
    c
}

/// Whether the step explicitly routes (switch, parallel, loop with a body).
pub fn has_explicit_routes(step: &NodeStep) -> (r: bool)
    ensures
        r == routes_explicitly(*step),
{
    match step {
        NodeStep::Control(ControlNode::Switch { .. }) => true,
        NodeStep::Control(ControlNode::Parallel { .. }) => true,
        NodeStep::Control(ControlNode::Loop { body: Some(_), .. }) => true,
        _ => false,
    }
}

/// The routes a control node adds by itself.
pub fn extra_routes(step: &NodeStep) -> (r: Vec<Route>)
    ensures
        r@ == control_routes(*step),
{
    match step {
        NodeStep::Control(ControlNode::Switch { cases, default }) => {
            let mut r: Vec<Route> = Vec::new();
            let mut i: usize = 0;
            while i < cases.len()
                invariant
                    i <= cases@.len(),
                    r@ == cases@.subrange(0, i as int).map_values(|c: SwitchCase| Route { to: c.to, when: None }),
                decreases cases.len() - i,
            {
                r.push(Route { to: cases[i].to.clone(), when: None });
                proof {
                    assert(cases@.subrange(0, i + 1).map_values(|c: SwitchCase| Route { to: c.to, when: None })
                        =~= cases@.subrange(0, i as int).map_values(|c: SwitchCase| Route { to: c.to, when: None }).push(
                        Route { to: cases@[i as int].to, when: None },
                    ));
                }
                i = i + 1;
            }
            assert(cases@.subrange(0, cases@.len() as int) =~= cases@);
            r.push(Route { to: default.clone(), when: None });
            r
        },
        NodeStep::Control(ControlNode::Parallel { branches }) => {
            let mut r: Vec<Route> = Vec::new();
            let mut i: usize = 0;
            while i < branches.len()
                invariant
                    i <= branches@.len(),
                    r@ == branches@.subrange(0, i as int).map_values(|b: String| Route { to: b, when: None }),
                decreases branches.len() - i,
            {
                r.push(Route { to: branches[i].clone(), when: None });
                proof {
                    assert(branches@.subrange(0, i + 1).map_values(|b: String| Route { to: b, when: None })
                        =~= branches@.subrange(0, i as int).map_values(|b: String| Route { to: b, when: None }).push(
                        Route { to: branches@[i as int], when: None },
                    ));
                }
                i = i + 1;
            }
            assert(branches@.subrange(0, branches@.len() as int) =~= branches@);
            r
        },
        NodeStep::Control(ControlNode::Loop { body: Some(t), .. }) => {
            let mut r: Vec<Route> = Vec::new();
            r.push(Route { to: t.clone(), when: None });
            r
        },
        _ => Vec::new(),
    }
}

} // verus!
