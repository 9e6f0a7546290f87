use sohara::runtime::graph::{EdgeSpec, FlowGraph, FlowSpec, OnError, RetrySpec, StepSpec};
use sohara::runtime::node::{ControlNode, ErrorPolicy, NodeStep, SwitchCase};
use sohara::runtime::routes::GraphError;
use sohara::runtime::warnings::{reach, warn_unreachable};

fn step(id: &str, step: NodeStep) -> StepSpec {
    StepSpec { id: id.to_owned(), when: None, step, on_error: None, retry: None, state: None }
}

fn edge(from: &str, to: &str) -> EdgeSpec {
    EdgeSpec { from: from.to_owned(), to: to.to_owned(), when: None }
}

fn flow(steps: Vec<StepSpec>, edges: Vec<EdgeSpec>) -> FlowSpec {
    FlowSpec { name: "test".to_owned(), steps, edges }
}

#[test]
fn route_to_unknown_node_fails_at_build() {
    let switch = NodeStep::Control(ControlNode::Switch {
        cases: vec![SwitchCase { when: "true".to_owned(), to: "ghost".to_owned() }],
        default: "out".to_owned(),
    });
    let f = flow(
        vec![step("in", NodeStep::Source), step("route", switch), step("out", NodeStep::Sink)],
        vec![edge("in", "route")],
    );
    let error = FlowGraph::build(f).unwrap_err();
    assert!(error.message().contains("ghost"), "got: {}", error.message());
    assert_eq!(error.message(), "step 'route' routes to unknown step 'ghost'");
}

#[test]
fn linear_steps_chain_implicitly() {
    let f = flow(
        vec![step("in", NodeStep::Source), step("map", NodeStep::Transform), step("out", NodeStep::Sink)],
        vec![],
    );
    let g = FlowGraph::build(f).unwrap();
    assert_eq!(g.roots, vec!["in".to_owned()]);
    assert_eq!(g.nodes.len(), 3);
    assert_eq!(g.nodes[0].routes.len(), 1);
    assert_eq!(g.nodes[0].routes[0].to, "map");
    assert_eq!(g.nodes[1].routes[0].to, "out");
    assert_eq!(g.nodes[2].routes.len(), 0);
    assert_eq!(g.nodes[0].incoming, 0);
    assert_eq!(g.nodes[1].incoming, 1);
    assert_eq!(g.nodes[2].incoming, 1);
}

#[test]
fn switch_is_not_chained_and_adds_its_cases() {
    let switch = NodeStep::Control(ControlNode::Switch {
        cases: vec![SwitchCase { when: "n > 2".to_owned(), to: "big".to_owned() }],
        default: "small".to_owned(),
    });
    let f = flow(
        vec![
            step("in", NodeStep::Source),
            step("route", switch),
            step("big", NodeStep::Transform),
            step("small", NodeStep::Sink),
        ],
        vec![],
    );
    let g = FlowGraph::build(f).unwrap();
    let targets: Vec<String> = g.nodes[1].routes.iter().map(|r| r.to.clone()).collect();
    assert_eq!(targets, vec!["big".to_owned(), "small".to_owned()]);
    assert_eq!(g.nodes[3].incoming, 2);
}

#[test]
fn cycles_and_self_loops_are_refused() {
    let f = flow(
        vec![step("a", NodeStep::Transform), step("b", NodeStep::Transform)],
        vec![edge("a", "b"), edge("b", "a")],
    );
    let error = FlowGraph::build(f).unwrap_err();
    assert!(matches!(error, GraphError::Cycle));
    assert_eq!(error.message(), "flow contains a cycle; loops must use control steps (foreach/loop)");
    let f = flow(vec![step("a", NodeStep::Transform)], vec![edge("a", "a")]);
    let error = FlowGraph::build(f).unwrap_err();
    assert_eq!(error.message(), "self-loop on step 'a' is not allowed");
}

#[test]
fn sink_with_outgoing_edges_is_refused() {
    let f = flow(
        vec![step("in", NodeStep::Source), step("out", NodeStep::Sink), step("more", NodeStep::Sink)],
        vec![edge("in", "out"), edge("out", "more")],
    );
    let error = FlowGraph::build(f).unwrap_err();
    assert_eq!(error.message(), "sink 'out' cannot have outgoing edges");
}

#[test]
fn retry_policy_needs_a_retry_block() {
    let mut s = step("flaky", NodeStep::Transform);
    s.on_error = Some(OnError::Retry);
    let f = flow(vec![step("in", NodeStep::Source), s], vec![]);
    let error = FlowGraph::build(f).unwrap_err();
    assert_eq!(error.message(), "step 'flaky': on_error: retry needs a 'retry' block");

    let mut s = step("flaky", NodeStep::Transform);
    s.on_error = Some(OnError::Retry);
    s.retry = Some(RetrySpec { max: 2, backoff_millis: 1 });
    let f = flow(vec![step("in", NodeStep::Source), s], vec![]);
    let g = FlowGraph::build(f).unwrap();
    assert_eq!(g.nodes[1].policy, ErrorPolicy::Retry { max: 2, backoff_millis: 1 });
    assert_eq!(g.nodes[0].policy, ErrorPolicy::Fail);
}

#[test]
fn parallel_join_counts_incoming_routes() {
    let fan = NodeStep::Control(ControlNode::Parallel { branches: vec!["left".to_owned(), "right".to_owned()] });
    let join = NodeStep::Control(ControlNode::Join { mode: sohara::runtime::node::JoinMode::All, n: 0 });
    let f = flow(
        vec![
            step("in", NodeStep::Source),
            step("fan", fan),
            step("left", NodeStep::Transform),
            step("right", NodeStep::Transform),
            step("gather", join),
            step("out", NodeStep::Sink),
        ],
        vec![edge("in", "fan"), edge("left", "gather"), edge("right", "gather"), edge("gather", "out")],
    );
    let g = FlowGraph::build(f).unwrap();
    assert_eq!(g.nodes[4].incoming, 2);
    assert_eq!(g.nodes[1].routes.len(), 2);
}

#[test]
fn unreachable_and_sinkless_steps_are_reported() {
    let f = flow(
        vec![
            step("in", NodeStep::Source),
            step("map", NodeStep::Transform),
            step("out", NodeStep::Sink),
            step("orphan", NodeStep::Transform),
            step("dead", NodeStep::Transform),
        ],
        vec![edge("in", "map"), edge("map", "out"), edge("orphan", "dead")],
    );
    let g = FlowGraph::build(f).unwrap();
    let (unreached, sinkless) = warn_unreachable(&g.nodes, &g.roots);
    assert_eq!(unreached, vec!["orphan".to_owned(), "dead".to_owned()]);
    assert_eq!(sinkless, vec!["orphan".to_owned(), "dead".to_owned()]);
    let adjacency = vec![vec![1], vec![2], vec![], vec![0, 9]];
    assert_eq!(reach(&adjacency, &vec![0]), vec![true, true, true, false]);
    assert_eq!(reach(&adjacency, &vec![3]), vec![true, true, true, true]);
}

#[test]
fn unparsable_conditions_fail_the_build_in_order() {
    let mut retrying = step("map", NodeStep::Transform);
    retrying.on_error = Some(OnError::Retry);
    let f = flow(vec![step("in", NodeStep::Source), retrying, step("out", NodeStep::Sink)], vec![]);
    let error = FlowGraph::build_checked(f, &vec![None, Some("unexpected token".to_owned()), None], &vec![]).unwrap_err();
    assert_eq!(error.message(), "step 'map': invalid 'when': unexpected token");

    let f = flow(vec![step("in", NodeStep::Source), step("out", NodeStep::Sink)], vec![edge("in", "out")]);
    let error = FlowGraph::build_checked(f, &vec![None, None], &vec![Some("bad".to_owned())]).unwrap_err();
    assert!(matches!(error, GraphError::InvalidEdgeWhen { ref from, ref to, ref error } if from == "in" && to == "out" && error == "bad"));
    assert_eq!(error.message(), "edge 'in' -> 'out': invalid 'when': bad");

    let f = flow(vec![step("in", NodeStep::Source), step("out", NodeStep::Sink)], vec![edge("in", "out")]);
    let g = FlowGraph::build_checked(f, &vec![None, None], &vec![None]).unwrap();
    assert_eq!(g.roots, vec!["in".to_owned()]);
}
