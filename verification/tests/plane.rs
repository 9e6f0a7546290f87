use sohara::json::Json;
use sohara::plane::agent::{CommandAck, Heartbeat, InstanceReport, InstanceSpec, InstanceState};
use sohara::plane::gateway::{
    authorized, bearer_matches, first_candidate, forward_url, forwards_header, gateway_action, gateway_candidates,
    match_route, rotate_candidates, GatewayAction,
};
use sohara::plane::registry::Registry;
use sohara::plane::types::{Desired, InstanceDecl, InstanceView, RouteDecl, RouteMode, Strategy};

fn decl(id: &str, node: &str, desired: Desired) -> InstanceDecl {
    let mut spec = InstanceSpec::empty();
    spec.id = id.to_owned();
    InstanceDecl { id: id.to_owned(), node: node.to_owned(), flow_id: None, desired, spec }
}

fn report(id: &str, state: InstanceState) -> InstanceReport {
    InstanceReport { id: id.to_owned(), state, paused: false, healthy: true, restarts: 0, admin: None, trigger: None }
}

#[test]
fn declared_instance_is_started_then_acknowledged() {
    let mut registry = Registry::new();
    registry.declare_instance(decl("i1", "n1", Desired::Running));
    let beat = Heartbeat { node_id: "n1".to_owned(), time: "t0".to_owned(), instances: vec![report("i1", InstanceState::Stopped)] };
    let (commands, desired) = registry.heartbeat(&beat);
    assert_eq!(commands.len(), 1);
    assert_eq!(commands[0].op, "start");
    assert_eq!(commands[0].instance, "i1");
    assert_eq!(desired.len(), 1);
    // the same state again does not enqueue a second start
    let (again, _) = registry.heartbeat(&beat);
    assert_eq!(again.len(), 1);
    assert_eq!(again[0].seq, commands[0].seq);
    registry.ack(&CommandAck { seq: commands[0].seq });
    let running = Heartbeat { node_id: "n1".to_owned(), time: "t1".to_owned(), instances: vec![report("i1", InstanceState::Running)] };
    let (after, _) = registry.heartbeat(&running);
    assert!(after.is_empty());
}

#[test]
fn relay_pull_returns_what_was_published_after_the_cursor() {
    let mut registry = Registry::new();
    registry.relay_publish("orders", Json::Number("1".to_owned()));
    registry.relay_publish("orders", Json::Number("2".to_owned()));
    registry.relay_publish("orders", Json::Number("3".to_owned()));
    let (messages, next) = registry.relay_pull("sub", &[("orders".to_owned(), 1)]);
    let seqs: Vec<u64> = messages.iter().map(|m| m.seq).collect();
    assert_eq!(seqs, vec![2, 3]);
    assert_eq!(messages[0].payload, Json::Number("2".to_owned()));
    assert_eq!(next.len(), 1);
    assert_eq!(next[0].after, 3);
    let (none, next) = registry.relay_pull("sub", &[("orders".to_owned(), 3), ("missing".to_owned(), 0)]);
    assert!(none.is_empty());
    assert_eq!(next.len(), 1);
    assert_eq!(next[0].after, 3);
}

#[test]
fn plane_token_is_enforced() {
    assert!(authorized(&None, None));
    assert!(!authorized(&Some("s3cret".to_owned()), None));
    assert!(!authorized(&Some("s3cret".to_owned()), Some("Bearer wrong")));
    assert!(authorized(&Some("s3cret".to_owned()), Some("Bearer s3cret")));
    assert!(!bearer_matches(Some("Basic s3cret"), "s3cret"));
}

#[test]
fn gateway_dispatches_by_route_mode() {
    assert!(matches!(gateway_action(None), GatewayAction::NotFound));
    let mut route = RouteDecl {
        id: "r".to_owned(),
        path: "/orders".to_owned(),
        flow_id: "f".to_owned(),
        mode: RouteMode::Bus,
        strategy: Strategy::RoundRobin,
        sticky_key: None,
        topic: None,
    };
    assert!(matches!(gateway_action(Some(&route)), GatewayAction::NoTopic));
    route.topic = Some("orders".to_owned());
    assert!(matches!(gateway_action(Some(&route)), GatewayAction::Publish { topic } if topic == "orders"));
    route.mode = RouteMode::Proxy;
    assert!(matches!(gateway_action(Some(&route)), GatewayAction::Proxy));
    assert_eq!(forward_url("10.0.0.1:8080", "orders/1"), "http://10.0.0.1:8080/orders/1");
    assert!(!forwards_header("host"));
    assert!(!forwards_header("content-length"));
    assert!(forwards_header("x-request-id"));
}

#[test]
fn events_are_recorded_newest_first() {
    let mut registry = Registry::new();
    registry.record_event("instance", "declared i1".to_owned());
    registry.record_event("instance", "removed i1".to_owned());
    let events = registry.list_events();
    assert_eq!(events.len(), 2);
    assert_eq!(events[0].message, "removed i1");
}

fn route(id: &str, path: &str) -> RouteDecl {
    RouteDecl {
        id: id.to_owned(),
        path: path.to_owned(),
        flow_id: "orders".to_owned(),
        mode: RouteMode::Proxy,
        strategy: Strategy::RoundRobin,
        sticky_key: None,
        topic: None,
    }
}

fn view(id: &str, flow: Option<&str>, actual: Option<&str>, trigger: Option<&str>) -> InstanceView {
    InstanceView {
        id: id.to_owned(),
        node: "n1".to_owned(),
        flow_id: flow.map(str::to_owned),
        desired: "running".to_owned(),
        actual: actual.map(str::to_owned),
        healthy: None,
        paused: None,
        restarts: None,
        admin: None,
        trigger: trigger.map(str::to_owned),
    }
}

#[test]
fn gateway_matches_the_first_route_prefixing_the_path() {
    let routes = vec![route("a", "/tasks"), route("b", "/webhook/orders"), route("c", "/webhook")];
    assert_eq!(match_route(&routes, "webhook/orders/new"), Some(1));
    assert_eq!(match_route(&routes, "webhook/other"), Some(2));
    assert_eq!(match_route(&routes, "nothing"), None);
}

#[test]
fn gateway_candidates_are_running_instances_of_the_flow_with_a_trigger() {
    let views = vec![
        view("orders-1", Some("orders"), Some("running"), Some("127.0.0.1:1")),
        view("orders-2", Some("orders"), Some("stopped"), Some("127.0.0.1:2")),
        view("other", Some("billing"), Some("running"), Some("127.0.0.1:3")),
        view("orders-3", Some("orders"), Some("running"), None),
        view("orders-4", Some("orders"), Some("running"), Some("127.0.0.1:4")),
    ];
    assert_eq!(gateway_candidates(&views, "orders"), vec!["127.0.0.1:1".to_owned(), "127.0.0.1:4".to_owned()]);
    assert!(gateway_candidates(&views, "none").is_empty());
}

#[test]
fn round_robin_alternates_and_hash_sticks_to_one_candidate() {
    let firsts: Vec<usize> = (0..4).map(|turn| first_candidate(2, &Strategy::RoundRobin, None, turn)).collect();
    assert_eq!(firsts, vec![0, 1, 0, 1]);
    let sticky: Vec<usize> = (0..4).map(|turn| first_candidate(2, &Strategy::Hash, Some("same-key"), turn)).collect();
    assert!(sticky.iter().all(|&f| f == sticky[0]));
    // "ab": 97 + 98 = 195, and 195 mod 4 is 3
    assert_eq!(first_candidate(4, &Strategy::Hash, Some("ab"), 0), 3);
    // without a key the hash strategy falls back to round robin
    assert_eq!(first_candidate(3, &Strategy::Hash, None, 5), 2);
    let order = rotate_candidates(vec!["a".to_owned(), "b".to_owned(), "c".to_owned()], 1);
    assert_eq!(order, vec!["b".to_owned(), "c".to_owned(), "a".to_owned()]);
}
