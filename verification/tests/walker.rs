use sohara::runtime::node::{ErrorPolicy, Node, NodeStep};
use sohara::runtime::routes::Route;
use sohara::runtime::walker::{gate, routes_taken, walk_action, Gate, WalkAction};

#[test]
fn step_when_precondition_drops_records() {
    assert_eq!(gate(true, Some(false)), Gate::Skip);
    assert_eq!(gate(true, Some(true)), Gate::Pass);
    assert_eq!(gate(true, None), Gate::Error);
    assert_eq!(gate(false, None), Gate::Pass);
}

#[test]
fn edge_when_filters_routing() {
    let routes = vec![
        Route { to: "a".to_owned(), when: None },
        Route { to: "b".to_owned(), when: Some("n > 2".to_owned()) },
        Route { to: "c".to_owned(), when: Some("bad(".to_owned()) },
    ];
    assert_eq!(routes_taken(&routes, &vec![None, Some(true), None]), vec!["a".to_owned(), "b".to_owned()]);
    assert_eq!(routes_taken(&routes, &vec![None, Some(false), Some(true)]), vec!["a".to_owned(), "c".to_owned()]);
}

#[test]
fn nodes_dispatch_by_kind() {
    let sink = Node {
        id: "out".to_owned(),
        when: None,
        policy: ErrorPolicy::Fail,
        step: NodeStep::Sink,
        state: None,
        routes: Vec::new(),
        incoming: 1,
    };
    assert_eq!(walk_action(None, false), WalkAction::UnknownNode);
    assert_eq!(walk_action(Some(&sink), false), WalkAction::Deliver);
    assert_eq!(walk_action(Some(&sink), true), WalkAction::Duplicate);
}
