use sohara::json::Json;
use sohara::persistence::MemoryStore;
use sohara::plane::agent::InstanceSpec;
use sohara::plane::manager::{status_probe, status_reply, StatusProbe};
use sohara::plane::types::{Desired, InstanceDecl};
use sohara::runtime::admin::{health_json, paused_json, report_json, status_json};
use sohara::runtime::buffers::scan_nodes;
use sohara::runtime::serve::TriggerInfo;
use sohara::runtime::control::{assign_state, foreach_items, loop_continues, loop_next, LoopNext};
use sohara::runtime::executor::{Counter, Executor, ExecutorConfig, TransformNext, WalkPlan};
use sohara::runtime::graph::{EdgeSpec, FlowGraph, FlowSpec, StepSpec};
use sohara::runtime::history::history_entry;
use sohara::runtime::node::{ControlNode, ErrorPolicy, JoinMode, NodeStep};
use sohara::script::TransformOutcome;
use sohara::runtime::pause::PauseGate;
use sohara::runtime::persist::initial_states;
use sohara::runtime::record::Record;
use sohara::runtime::stats::Tick;

fn num(n: &str) -> Json {
    Json::Number(n.to_owned())
}

fn obj(members: Vec<(&str, Json)>) -> Json {
    Json::Object(members.into_iter().map(|(k, v)| (k.to_owned(), v)).collect())
}

fn step(id: &str, step: NodeStep, state: Option<Json>) -> StepSpec {
    StepSpec { id: id.to_owned(), when: None, step, on_error: None, retry: None, state }
}

fn graph() -> FlowGraph {
    let flow = FlowSpec {
        name: "f".to_owned(),
        steps: vec![
            step("in", NodeStep::Source, None),
            step("count", NodeStep::Control(ControlNode::State { exprs: vec![] }), Some(obj(vec![("total", num("0"))]))),
            step("out", NodeStep::Sink, None),
        ],
        edges: vec![],
    };
    FlowGraph::build(flow).unwrap()
}

fn config(store: Option<MemoryStore>, resume: bool) -> ExecutorConfig {
    ExecutorConfig { store, resume, checkpoint_every: None, pause: None }
}

#[test]
fn a_fresh_run_stores_its_new_run_id() {
    let ex = Executor::new(graph(), config(Some(MemoryStore::new()), false));
    assert_eq!(ex.run_id().len(), 36);
    assert_eq!(ex.flow_name(), "f");
    assert_eq!(ex.snapshot().processed, 0);
    assert_eq!(ex.state_value("count"), obj(vec![("total", num("0"))]));
    assert_eq!(ex.state_value("in"), Json::Object(vec![]));
    let run_id = ex.run_id().to_owned();
    let store = ex.into_store().unwrap();
    assert_eq!(store.load("f:run_id"), Some(Json::Str(run_id)));
}

#[test]
fn resuming_reuses_the_run_id_and_the_saved_states() {
    let mut store = MemoryStore::new();
    store.save("f:run_id", Json::Str("r1".to_owned()));
    store.save("r1:state:count", obj(vec![("total", num("3"))]));
    let ex = Executor::new(graph(), config(Some(store), true));
    assert_eq!(ex.run_id(), "r1");
    assert_eq!(ex.state_value("count"), obj(vec![("total", num("3"))]));
    let fresh = {
        let mut store = MemoryStore::new();
        store.save("f:run_id", Json::Str("r1".to_owned()));
        Executor::new(graph(), config(Some(store), false))
    };
    assert_ne!(fresh.run_id(), "r1");
}

#[test]
fn delivered_records_are_found_when_resuming() {
    let mut first = Executor::new(graph(), config(Some(MemoryStore::new()), false));
    let record = Record::new(num("1"));
    assert!(!first.is_delivered(&record, 7));
    first.mark_delivered(&record, 7);
    assert!(first.is_delivered(&record, 7));
    let store = first.into_store();
    let second = Executor::new(graph(), config(store, true));
    assert!(second.is_delivered(&record, 7));
    assert!(!second.is_delivered(&record, 8));
    let mut no_store = Executor::new(graph(), config(None, false));
    no_store.mark_delivered(&record, 7);
    assert!(!no_store.is_delivered(&record, 7));
}

#[test]
fn state_updates_are_stored_at_once() {
    let mut ex = Executor::new(graph(), config(Some(MemoryStore::new()), false));
    ex.update_state("count", obj(vec![("total", num("5"))]));
    assert_eq!(ex.state_value("count"), obj(vec![("total", num("5"))]));
    assert_eq!(
        ex.eval_value("count", &num("1")),
        obj(vec![("record", num("1")), ("state", obj(vec![("total", num("5"))]))])
    );
    assert_eq!(ex.eval_value("out", &num("1")), num("1"));
    let key = format!("{}:state:count", ex.run_id());
    let store = ex.into_store().unwrap();
    assert_eq!(store.load(&key), Some(obj(vec![("total", num("5"))])));
}

#[test]
fn checkpoints_store_states_every_n_deliveries() {
    let cfg = ExecutorConfig { store: Some(MemoryStore::new()), resume: false, checkpoint_every: Some(2), pause: None };
    let mut ex = Executor::new(graph(), cfg);
    ex.maybe_checkpoint();
    let key = format!("{}:state:count", ex.run_id());
    let mut ex2 = ex;
    ex2.maybe_checkpoint();
    let store = ex2.into_store().unwrap();
    assert_eq!(store.load(&key), Some(obj(vec![("total", num("0"))])));

    let cfg = ExecutorConfig { store: Some(MemoryStore::new()), resume: false, checkpoint_every: Some(2), pause: None };
    let mut once = Executor::new(graph(), cfg);
    once.maybe_checkpoint();
    let key = format!("{}:state:count", once.run_id());
    assert_eq!(once.into_store().unwrap().load(&key), None);
}

#[test]
fn approval_queues_release_parked_records_in_order() {
    let mut ex = Executor::new(graph(), config(Some(MemoryStore::new()), false));
    ex.park_approve("gate", &Record::new(obj(vec![("order", Json::Str("A".to_owned()))])));
    ex.park_approve("gate", &Record::new(obj(vec![("order", Json::Str("B".to_owned()))])));
    let taken = ex.take_approve_queue("gate");
    assert_eq!(taken.len(), 2);
    assert_eq!(taken[0].payload, obj(vec![("order", Json::Str("A".to_owned()))]));
    assert_eq!(taken[1].payload, obj(vec![("order", Json::Str("B".to_owned()))]));
    assert!(ex.take_approve_queue("gate").is_empty());
    let mut no_store = Executor::new(graph(), config(None, false));
    no_store.park_approve("gate", &Record::new(num("1")));
    assert!(no_store.take_approve_queue("gate").is_empty());
}

#[test]
fn pausing_and_resuming_intake() {
    let cfg = ExecutorConfig { store: None, resume: false, checkpoint_every: None, pause: Some(PauseGate::new()) };
    let mut ex = Executor::new(graph(), cfg);
    assert!(!ex.is_paused());
    ex.pause();
    assert!(ex.is_paused());
    assert!(ex.resume());
    assert!(!ex.is_paused());
    let mut ungated = Executor::new(graph(), config(None, false));
    ungated.pause();
    assert!(!ungated.is_paused());
    assert!(!ungated.resume());
}

#[test]
fn run_report_carries_counters_and_step_stats() {
    let mut ex = Executor::new(graph(), config(None, false));
    ex.count(Counter::Processed);
    ex.count(Counter::Processed);
    ex.count(Counter::Errors);
    ex.count(Counter::Duplicates);
    ex.tick("count", Tick::Processed { nanos: 5 });
    ex.tick("count", Tick::Filtered { nanos: 2 });
    assert_eq!(ex.step_stat("count").processed, 1);
    assert_eq!(ex.step_stat("other").processed, 0);
    let report = ex.report();
    assert_eq!(report.run_id, ex.run_id());
    assert_eq!(report.flow, "f");
    assert_eq!(report.stats.processed, 2);
    assert_eq!(report.stats.errors, 1);
    assert_eq!(report.stats.duplicates, 1);
    assert_eq!(report.stats.filtered, 0);
    assert_eq!(report.steps.len(), 1);
    assert_eq!(report.steps[0].id, "count");
    assert_eq!(report.steps[0].stat.processed, 1);
    assert_eq!(report.steps[0].stat.filtered, 1);
    assert_eq!(report.steps[0].stat.nanos, 7);
}

#[test]
fn run_report_start_time_is_utc_rfc3339() {
    let ex = Executor::new(graph(), config(None, false));
    let report = ex.report();
    assert!(report.started_at.len() >= 25);
    assert!(report.started_at.ends_with("+00:00"));
    assert_eq!(report.started_at.as_bytes()[10], b'T');
}

#[test]
fn scan_finds_join_batch_and_sink_nodes() {
    let flow = FlowSpec {
        name: "scan".to_owned(),
        steps: vec![
            step("in", NodeStep::Source, None),
            step("j", NodeStep::Control(ControlNode::Join { mode: JoinMode::All, n: 0 }), None),
            step("b", NodeStep::Control(ControlNode::Batch { size: Some(2), within_millis: None }), None),
            step("out", NodeStep::Sink, None),
        ],
        edges: vec![],
    };
    let g = FlowGraph::build(flow).unwrap();
    let scan = scan_nodes(&g);
    assert_eq!(scan.joins.len(), 1);
    assert_eq!(scan.joins[0].0, "j");
    assert_eq!(scan.joins[0].1.expected, 1);
    assert!(scan.joins[0].1.groups.is_empty());
    assert_eq!(scan.batches.len(), 1);
    assert_eq!(scan.batches[0].0, "b");
    assert_eq!(scan.sinks, vec!["out".to_owned()]);
}

#[test]
fn initial_states_prefer_saved_ones_when_resuming() {
    let g = graph();
    let mut store = MemoryStore::new();
    store.save("r:state:count", num("9"));
    let fresh = initial_states(&g, "r", false, Some(&store));
    assert_eq!(fresh, vec![("count".to_owned(), obj(vec![("total", num("0"))]))]);
    let resumed = initial_states(&g, "r", true, Some(&store));
    assert_eq!(resumed, vec![("count".to_owned(), num("9"))]);
    let other_run = initial_states(&g, "s", true, Some(&store));
    assert_eq!(other_run, vec![("count".to_owned(), obj(vec![("total", num("0"))]))]);
}

#[test]
fn state_assignments_set_fields_or_fail_as_a_whole() {
    let state = obj(vec![("total", num("1"))]);
    let set = assign_state(
        state,
        vec![("total".to_owned(), Ok(num("2"))), ("last".to_owned(), Ok(Json::Str("x".to_owned())))],
    );
    assert_eq!(set, Some(obj(vec![("total", num("2")), ("last", Json::Str("x".to_owned()))])));
    let failed = assign_state(obj(vec![]), vec![("a".to_owned(), Ok(num("1"))), ("b".to_owned(), Err("bad".to_owned()))]);
    assert_eq!(failed, None);
    assert_eq!(assign_state(num("3"), vec![("a".to_owned(), Ok(num("1")))]), Some(num("3")));
}

#[test]
fn foreach_iterates_arrays_only() {
    assert_eq!(foreach_items(Ok(Json::Array(vec![num("1"), num("2")]))), Some(vec![num("1"), num("2")]));
    assert_eq!(foreach_items(Ok(num("1"))), None);
    assert_eq!(foreach_items(Err("boom".to_owned())), None);
}

#[test]
fn pause_gate_closes_and_opens() {
    let mut gate = PauseGate::default();
    assert!(!gate.paused());
    assert!(!gate.set_paused(true));
    assert!(gate.paused());
    assert!(gate.set_paused(false));
    assert!(!gate.paused());
}

fn decl(admin: Option<&str>, token: Option<&str>) -> InstanceDecl {
    let mut spec = InstanceSpec::empty();
    spec.id = "i1".to_owned();
    spec.admin = admin.map(str::to_owned);
    spec.admin_token = token.map(str::to_owned);
    InstanceDecl { id: "i1".to_owned(), node: "n1".to_owned(), flow_id: None, desired: Desired::Running, spec }
}

#[test]
fn instance_status_probe_targets_the_admin_endpoint() {
    assert!(matches!(status_probe(None), StatusProbe::Unknown));
    assert_eq!(status_probe(None).refusal(), Some((404, "unknown instance")));
    let no_admin = decl(None, None);
    assert_eq!(status_probe(Some(&no_admin)).refusal(), Some((503, "instance has no admin address")));
    let with_admin = decl(Some("127.0.0.1:9000"), Some("s3cret"));
    match status_probe(Some(&with_admin)) {
        StatusProbe::Fetch { url, token } => {
            assert_eq!(url, "http://127.0.0.1:9000/admin/status");
            assert_eq!(token, Some("s3cret".to_owned()));
        }
        _ => panic!("expected a fetch"),
    }
    assert_eq!(status_reply(None, "down".to_owned()), Json::Str("down".to_owned()));
    assert_eq!(status_reply(Some(num("1")), "1".to_owned()), num("1"));
}

#[test]
fn history_entries_carry_report_status_and_error() {
    let mut ex = Executor::new(graph(), config(None, false));
    ex.count(Counter::Processed);
    ex.tick("count", Tick::Processed { nanos: 4 });
    let report = ex.report();
    let stats = obj(vec![
        ("processed", num("1")),
        ("filtered", num("0")),
        ("errors", num("0")),
        ("waiting", num("0")),
        ("duplicates", num("0")),
    ]);
    let step = Json::Array(vec![
        Json::Str("count".to_owned()),
        obj(vec![("processed", num("1")), ("filtered", num("0")), ("errors", num("0")), ("nanos", num("4"))]),
    ]);
    let entry = history_entry(&report, "t1".to_owned(), "ok", None);
    assert_eq!(
        entry,
        obj(vec![
            ("run_id", Json::Str(report.run_id.clone())),
            ("flow", Json::Str("f".to_owned())),
            ("started_at", Json::Str(report.started_at.clone())),
            ("finished_at", Json::Str("t1".to_owned())),
            ("status", Json::Str("ok".to_owned())),
            ("stats", stats.duplicate()),
            ("steps", Json::Array(vec![step.duplicate()])),
        ])
    );
    let failed = history_entry(&report, "t2".to_owned(), "error", Some("boom"));
    match failed {
        Json::Object(members) => {
            assert_eq!(members[5], ("error".to_owned(), Json::Str("boom".to_owned())));
            assert_eq!(members.len(), 8);
        }
        _ => panic!("expected an object"),
    }
}

fn buffered_graph() -> FlowGraph {
    let flow = FlowSpec {
        name: "buffers".to_owned(),
        steps: vec![
            step("in", NodeStep::Source, None),
            step("j", NodeStep::Control(ControlNode::Join { mode: JoinMode::N, n: 2 }), None),
            step("b", NodeStep::Control(ControlNode::Batch { size: Some(2), within_millis: None }), None),
            step("out", NodeStep::Sink, None),
        ],
        edges: vec![],
    };
    FlowGraph::build(flow).unwrap()
}

fn correlated(payload: Json, correlation: &str) -> Record {
    let mut record = Record::new(payload);
    record.metadata.push(("correlation".to_owned(), correlation.to_owned()));
    record
}

#[test]
fn join_releases_the_merged_group_once_complete() {
    let mut ex = Executor::new(buffered_graph(), config(None, false));
    assert!(ex.offer_join("j", correlated(obj(vec![("a", num("1"))]), "c1")).is_none());
    assert!(ex.offer_join("j", correlated(obj(vec![("z", num("9"))]), "c2")).is_none());
    let merged = ex.offer_join("j", correlated(obj(vec![("b", num("2"))]), "c1")).unwrap();
    assert_eq!(merged.payload, obj(vec![("a", num("1")), ("b", num("2"))]));
    assert_eq!(merged.meta("correlation"), Some("c1".to_owned()));
    assert!(ex.offer_join("j", correlated(obj(vec![("c", num("3"))]), "c1")).is_none());
    assert!(ex.offer_join("nowhere", correlated(num("1"), "c1")).is_none());
}

#[test]
fn batches_emit_on_size_and_flush_at_the_end() {
    let mut ex = Executor::new(buffered_graph(), config(None, false));
    assert!(ex.offer_batch("b", Record::new(num("1")), Some(2), None, 0).is_none());
    let batch = ex.offer_batch("b", Record::new(num("2")), Some(2), None, 1).unwrap();
    assert_eq!(batch.payload, obj(vec![("items", Json::Array(vec![num("1"), num("2")]))]));
    assert!(ex.offer_batch("b", Record::new(num("3")), Some(2), None, 2).is_none());
    let flushed = ex.flush_batches();
    assert_eq!(flushed.len(), 1);
    assert_eq!(flushed[0].0, "b");
    assert_eq!(flushed[0].1.payload, obj(vec![("items", Json::Array(vec![num("3")]))]));
    assert!(ex.flush_batches().is_empty());
    assert!(ex.offer_batch("nowhere", Record::new(num("1")), Some(1), None, 0).is_none());
}

#[test]
fn transform_outcomes_are_booked_and_routed() {
    let mut ex = Executor::new(graph(), config(None, false));
    let next = ex.after_transform("t", ErrorPolicy::Fail, 0, Ok(TransformOutcome::Pass(Record::new(num("1")))), 3);
    match next {
        TransformNext::Route(v) => assert_eq!(v.len(), 1),
        other => panic!("unexpected {other:?}"),
    }
    let next = ex.after_transform(
        "t",
        ErrorPolicy::Fail,
        0,
        Ok(TransformOutcome::Expand(vec![Record::new(num("1")), Record::new(num("2"))])),
        1,
    );
    assert!(matches!(next, TransformNext::Route(ref v) if v.len() == 2));
    assert!(matches!(ex.after_transform("t", ErrorPolicy::Fail, 0, Ok(TransformOutcome::Filtered), 1), TransformNext::Drop));
    assert_eq!(ex.snapshot().filtered, 1);
    let stat = ex.step_stat("t");
    assert_eq!((stat.processed, stat.filtered, stat.errors, stat.nanos), (2, 1, 0, 5));

    let retry = ErrorPolicy::Retry { max: 2, backoff_millis: 10 };
    let next = ex.after_transform("t", retry, 0, Err("boom".to_owned()), 1);
    assert!(matches!(next, TransformNext::Retry { attempt: 1, backoff_millis: 10 }));
    assert_eq!(ex.snapshot().errors, 0);
    let next = ex.after_transform("t", retry, 2, Ok(TransformOutcome::Fail("still".to_owned())), 1);
    assert!(matches!(next, TransformNext::Abort(ref e) if e == "still"));
    assert_eq!(ex.snapshot().errors, 1);
    let next = ex.after_transform("t", ErrorPolicy::Continue, 0, Err("skip".to_owned()), 1);
    assert!(matches!(next, TransformNext::Drop));
    assert_eq!(ex.snapshot().errors, 2);
    assert_eq!(ex.step_stat("t").errors, 2);
}

#[test]
fn sink_outcomes_and_condition_errors_are_booked() {
    let mut ex = Executor::new(graph(), config(Some(MemoryStore::new()), false));
    let record = Record::new(num("1"));
    ex.record_delivery("out", &record, 42, 6);
    assert!(ex.is_delivered(&record, 42));
    assert_eq!(ex.snapshot().processed, 1);
    assert_eq!(ex.step_stat("out").processed, 1);
    assert_eq!(ex.step_stat("out").nanos, 6);
    ex.record_failure("out", 2, "disk full".to_owned());
    assert_eq!(ex.snapshot().errors, 1);
    let events = ex.error_events();
    assert_eq!(events.len(), 1);
    assert_eq!((events[0].step.as_str(), events[0].kind.as_str(), events[0].message.as_str()), ("out", "sink", "disk full"));
    assert_eq!(ex.step_stat("out").errors, 1);
    ex.record_condition_error("count");
    assert_eq!(ex.snapshot().errors, 2);
    assert_eq!(ex.step_stat("count").errors, 1);
    assert_eq!(ex.step_stat("count").nanos, 0);
}

#[test]
fn approve_parks_with_a_store_and_routes_through_without() {
    let mut ex = Executor::new(graph(), config(Some(MemoryStore::new()), false));
    assert!(ex.hold_for_approval("gate", Record::new(obj(vec![("order", Json::Str("A".to_owned()))]))).is_none());
    assert_eq!(ex.snapshot().waiting, 1);
    let released = ex.take_approve_queue("gate");
    assert_eq!(released.len(), 1);
    assert_eq!(released[0].payload, obj(vec![("order", Json::Str("A".to_owned()))]));
    let mut plain = Executor::new(graph(), config(None, false));
    let through = plain.hold_for_approval("gate", Record::new(num("1"))).unwrap();
    assert_eq!(through.payload, num("1"));
    assert_eq!(plain.snapshot().waiting, 0);
}

fn approval_graph() -> FlowGraph {
    let approve = |t: &str| NodeStep::Control(ControlNode::Approve { title: t.to_owned() });
    let flow = FlowSpec {
        name: "approvals".to_owned(),
        steps: vec![
            step("in", NodeStep::Source, None),
            step("g1", approve("first"), None),
            step("g2", approve("second"), None),
            step("out", NodeStep::Sink, None),
        ],
        edges: vec![],
    };
    FlowGraph::build(flow).unwrap()
}

#[test]
fn pending_approvals_are_released_per_step() {
    let mut ex = Executor::new(approval_graph(), config(Some(MemoryStore::new()), false));
    ex.park_approve("g1", &Record::new(num("1")));
    ex.park_approve("g2", &Record::new(num("2")));
    ex.park_approve("g2", &Record::new(num("3")));
    let only = ex.take_pending_approvals(Some("g2"));
    assert_eq!(only.len(), 1);
    assert_eq!(only[0].0, "g2");
    assert_eq!(only[0].1.len(), 2);
    assert_eq!(only[0].1[1].payload, num("3"));
    let all = ex.take_pending_approvals(None);
    assert_eq!(all.len(), 2);
    assert_eq!(all[0].0, "g1");
    assert_eq!(all[0].1.len(), 1);
    assert_eq!(all[1].0, "g2");
    assert!(all[1].1.is_empty());
}

#[test]
fn admin_documents_report_health_and_status() {
    assert_eq!(health_json(true), obj(vec![("status", Json::Str("running".to_owned())), ("paused", Json::Bool(true))]));
    assert_eq!(paused_json(false), obj(vec![("paused", Json::Bool(false))]));
    let mut ex = Executor::new(graph(), config(None, false));
    ex.count(Counter::Processed);
    ex.tick("count", Tick::Processed { nanos: 4 });
    let report = ex.report();
    let stats = obj(vec![
        ("processed", num("1")),
        ("filtered", num("0")),
        ("errors", num("0")),
        ("waiting", num("0")),
        ("duplicates", num("0")),
    ]);
    let steps = obj(vec![(
        "count",
        obj(vec![("processed", num("1")), ("filtered", num("0")), ("errors", num("0")), ("nanos", num("4"))]),
    )]);
    let expected_report = obj(vec![
        ("run_id", Json::Str(report.run_id.clone())),
        ("flow", Json::Str("f".to_owned())),
        ("started_at", Json::Str(report.started_at.clone())),
        ("stats", stats.duplicate()),
        ("steps", steps.duplicate()),
    ]);
    assert_eq!(report_json(&report), expected_report);
    let triggers = vec![TriggerInfo { id: "hook".to_owned(), kind: "http".to_owned() }];
    let status = status_json(&report, true, &triggers);
    assert_eq!(
        status,
        obj(vec![
            ("run_id", Json::Str(report.run_id.clone())),
            ("flow", Json::Str("f".to_owned())),
            ("started_at", Json::Str(report.started_at.clone())),
            ("stats", stats),
            ("steps", steps),
            ("paused", Json::Bool(true)),
            ("triggers", Json::Array(vec![obj(vec![("id", Json::Str("hook".to_owned())), ("kind", Json::Str("http".to_owned()))])])),
        ])
    );
}

#[test]
fn walks_dispatch_by_node_and_condition() {
    let flow = FlowSpec {
        name: "walk".to_owned(),
        steps: vec![
            step("in", NodeStep::Source, None),
            step("map", NodeStep::Transform, None),
            StepSpec {
                id: "out".to_owned(),
                when: Some("n > 1".to_owned()),
                step: NodeStep::Sink,
                on_error: None,
                retry: None,
                state: None,
            },
        ],
        edges: vec![],
    };
    let mut ex = Executor::new(FlowGraph::build(flow).unwrap(), config(Some(MemoryStore::new()), false));
    let record = Record::new(num("2"));
    assert_eq!(ex.begin_walk("nowhere", None, &record, 1), WalkPlan::Drop);
    assert_eq!(ex.begin_walk("in", None, &record, 1), WalkPlan::Route);
    assert_eq!(ex.begin_walk("map", None, &record, 1), WalkPlan::Transform);
    assert_eq!(ex.begin_walk("out", Some(false), &record, 1), WalkPlan::Drop);
    assert_eq!(ex.snapshot().errors, 0);
    assert_eq!(ex.begin_walk("out", None, &record, 1), WalkPlan::Drop);
    assert_eq!(ex.snapshot().errors, 1);
    assert_eq!(ex.step_stat("out").errors, 1);
    assert_eq!(ex.begin_walk("out", Some(true), &record, 1), WalkPlan::Deliver);
    ex.record_delivery("out", &record, 1, 3);
    assert_eq!(ex.begin_walk("out", Some(true), &record, 1), WalkPlan::Drop);
    assert_eq!(ex.snapshot().duplicates, 1);
}

#[test]
fn routing_follows_edge_conditions_and_counts_failures() {
    let edge = |from: &str, to: &str, when: Option<&str>| EdgeSpec {
        from: from.to_owned(),
        to: to.to_owned(),
        when: when.map(str::to_owned),
    };
    let flow = FlowSpec {
        name: "routes".to_owned(),
        steps: vec![
            step("in", NodeStep::Source, None),
            step("a", NodeStep::Sink, None),
            step("b", NodeStep::Sink, None),
            step("c", NodeStep::Sink, None),
        ],
        edges: vec![edge("in", "a", Some("x")), edge("in", "b", None), edge("in", "c", Some("y"))],
    };
    let mut ex = Executor::new(FlowGraph::build(flow).unwrap(), config(None, false));
    let targets = ex.route_targets("in", &vec![Some(true), None, None]);
    assert_eq!(targets, vec!["a".to_owned(), "b".to_owned()]);
    assert_eq!(ex.snapshot().errors, 1);
    let targets = ex.route_targets("in", &vec![Some(false), None, Some(true)]);
    assert_eq!(targets, vec!["b".to_owned(), "c".to_owned()]);
    assert_eq!(ex.snapshot().errors, 1);
    assert!(ex.route_targets("nowhere", &vec![]).is_empty());
}

#[test]
fn loops_run_while_the_condition_holds_up_to_the_cap() {
    assert!(loop_continues(0, 3, Some(true)));
    assert!(!loop_continues(3, 3, Some(true)));
    assert!(!loop_continues(0, 3, Some(false)));
    assert!(!loop_continues(1, 3, None));
}

#[test]
fn transform_failures_under_continue_are_error_events() {
    let mut ex = Executor::new(graph(), config(None, false));
    assert!(ex.error_events().is_empty());
    let next = ex.after_transform("check", ErrorPolicy::Continue, 0, Ok(TransformOutcome::Fail("n must exceed 10".to_owned())), 1);
    assert!(matches!(next, TransformNext::Drop));
    assert_eq!(ex.snapshot().errors, 1);
    let events = ex.error_events();
    assert_eq!(events.len(), 1);
    assert_eq!(events[0].step, "check");
    assert_eq!(events[0].kind, "transform");
    assert_eq!(events[0].message, "n must exceed 10");
    let retry = ErrorPolicy::Retry { max: 1, backoff_millis: 5 };
    assert!(matches!(ex.after_transform("check", retry, 0, Err("again".to_owned()), 1), TransformNext::Retry { .. }));
    assert_eq!(ex.error_events().len(), 1);
}

#[test]
fn foreach_counts_a_failed_over_as_an_error() {
    let mut ex = Executor::new(graph(), config(None, false));
    let record = Record::new(obj(vec![("id", num("7"))]));
    let children = ex.expand_foreach(&record, Ok(Json::Array(vec![num("1"), num("2"), num("3")])), &Some("x".to_owned()), 2);
    assert_eq!(children.len(), 2);
    assert_eq!(children[1].payload, obj(vec![("id", num("7")), ("x", num("2"))]));
    assert_eq!(ex.snapshot().errors, 0);
    assert!(ex.expand_foreach(&record, Ok(num("1")), &None, 5).is_empty());
    assert!(ex.expand_foreach(&record, Err("bad".to_owned()), &None, 5).is_empty());
    assert_eq!(ex.snapshot().errors, 2);
}

#[test]
fn loops_walk_the_body_or_route_while_allowed() {
    assert!(matches!(loop_next(&Some("body".to_owned()), 0, 2, Some(true)), LoopNext::Walk(t) if t == "body"));
    assert!(matches!(loop_next(&None, 1, 2, Some(true)), LoopNext::Route));
    assert!(matches!(loop_next(&None, 2, 2, Some(true)), LoopNext::Stop));
    assert!(matches!(loop_next(&None, 0, 2, None), LoopNext::Stop));
}

#[test]
fn intake_is_held_while_paused() {
    let cfg = ExecutorConfig { store: None, resume: false, checkpoint_every: None, pause: Some(PauseGate::new()) };
    let mut ex = Executor::new(graph(), cfg);
    assert!(ex.admits_intake());
    ex.pause();
    ex.count(Counter::Processed);
    assert!(!ex.admits_intake());
    ex.resume();
    assert!(ex.admits_intake());
}

#[test]
fn run_reports_list_step_statistics_by_id() {
    let mut ex = Executor::new(graph(), config(None, false));
    ex.tick("zeta", Tick::Processed { nanos: 1 });
    ex.tick("alpha", Tick::Filtered { nanos: 2 });
    ex.tick("mid", Tick::Error);
    let report = ex.report();
    let ids: Vec<&str> = report.steps.iter().map(|e| e.id.as_str()).collect();
    assert_eq!(ids, vec!["alpha", "mid", "zeta"]);
    assert_eq!(report.steps[0].stat.filtered, 1);
}
