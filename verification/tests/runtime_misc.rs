use sohara::json::Json;
use sohara::runtime::observe::{ErrorRing, ERROR_RING_CAP};
use sohara::runtime::persist::{
    approve_key, checkpoint_due, delivered_key, eval_value, initial_state, park, resolve_run_id, run_id_key,
    state_key, unpark,
};
use sohara::runtime::record::Record;
use sohara::runtime::serve::{recent_entries, approve_selected, newest_first, queue_topics, run_status, trigger_infos, TriggerDecl};
use sohara::runtime::stats::{tick_step, StepEntry, StepStat, Tick};

#[test]
fn store_keys_have_their_documented_shape() {
    assert_eq!(state_key("run-1", "count"), "run-1:state:count");
    assert_eq!(approve_key("flow", "gate"), "flow:approve:gate");
    assert_eq!(run_id_key("flow"), "flow:run_id");
    let record = Record::new(Json::Null);
    assert_eq!(delivered_key("r", &record, 0xab), "r:delivered:hash-ab");
    let mut keyed = Record::new(Json::Null);
    keyed.metadata.push(("idempotency_key".to_owned(), "k1".to_owned()));
    assert_eq!(delivered_key("r", &keyed, 0xab), "r:delivered:k1");
}

#[test]
fn approval_queues_park_and_release_in_order() {
    let q = park(None, Json::Number("1".to_owned()));
    let q = park(Some(q), Json::Number("2".to_owned()));
    assert_eq!(q, Json::Array(vec![Json::Number("1".to_owned()), Json::Number("2".to_owned())]));
    let records = unpark(Some(q));
    assert_eq!(records.len(), 2);
    assert_eq!(records[1].payload, Json::Number("2".to_owned()));
    assert!(unpark(Some(Json::Null)).is_empty());
}

#[test]
fn run_ids_resume_or_start_fresh() {
    let (id, save) = resolve_run_id(true, Some(Json::Str("old".to_owned())));
    assert_eq!((id.as_str(), save), ("old", false));
    let (id, save) = resolve_run_id(false, Some(Json::Str("old".to_owned())));
    assert!(save);
    assert_eq!(id.len(), 36);
    assert_eq!(initial_state(None, true, Some(Json::Null)), None);
    assert_eq!(initial_state(Some(Json::Bool(false)), true, Some(Json::Bool(true))), Some(Json::Bool(true)));
    assert_eq!(initial_state(Some(Json::Bool(false)), false, Some(Json::Bool(true))), Some(Json::Bool(false)));
    assert_eq!(checkpoint_due(Some(2), 0), (1, false));
    assert_eq!(checkpoint_due(Some(2), 1), (0, true));
    assert_eq!(checkpoint_due(None, 5), (5, false));
    let v = eval_value(&Json::Number("1".to_owned()), Some(&Json::Null));
    assert_eq!(
        v,
        Json::Object(vec![("record".to_owned(), Json::Number("1".to_owned())), ("state".to_owned(), Json::Null)])
    );
}

#[test]
fn error_ring_keeps_the_latest_events_newest_first() {
    let mut ring = ErrorRing::new();
    for i in 0..(ERROR_RING_CAP + 5) {
        ring.record("step", "transform", format!("e{i}"));
    }
    let events = ring.events();
    assert_eq!(events.len(), ERROR_RING_CAP);
    assert_eq!(events[0].message, format!("e{}", ERROR_RING_CAP + 4));
    assert_eq!(events[ERROR_RING_CAP - 1].message, "e5");
}

#[test]
fn step_statistics_count_outcomes() {
    let mut table: Vec<StepEntry> = Vec::new();
    tick_step(&mut table, "map", Tick::Processed { nanos: 10 });
    tick_step(&mut table, "map", Tick::Filtered { nanos: 5 });
    tick_step(&mut table, "out", Tick::Error);
    assert_eq!(table.len(), 2);
    let map = table.iter().find(|e| e.id == "map").unwrap();
    assert_eq!(map.stat, StepStat { processed: 1, filtered: 1, errors: 0, nanos: 15 });
}

#[test]
fn serve_helpers() {
    let triggers = vec![
        TriggerDecl {
            id: "q".to_owned(),
            trigger_type: "queue".to_owned(),
            config: Json::Object(vec![("topic".to_owned(), Json::Str("jobs".to_owned()))]),
        },
        TriggerDecl { id: "c".to_owned(), trigger_type: "cron".to_owned(), config: Json::Null },
    ];
    assert_eq!(queue_topics(&triggers), vec!["jobs".to_owned()]);
    let infos = trigger_infos(&triggers);
    assert_eq!(infos.len(), 2);
    assert_eq!((infos[0].id.as_str(), infos[0].kind.as_str()), ("q", "queue"));
    assert_eq!((infos[1].id.as_str(), infos[1].kind.as_str()), ("c", "cron"));
    assert!(approve_selected("gate", None));
    assert!(!approve_selected("gate", Some("other")));
    assert_eq!(run_status(false), "error");
    let entries = vec![Json::Number("1".to_owned()), Json::Number("2".to_owned()), Json::Number("3".to_owned())];
    assert_eq!(newest_first(entries, 2), vec![Json::Number("3".to_owned()), Json::Number("2".to_owned())]);
}

#[test]
fn history_reading_skips_unparsed_lines_and_a_missing_file() {
    assert!(recent_entries(None, 10).is_empty());
    let lines = vec![Some(Json::Number("1".to_owned())), None, Some(Json::Number("2".to_owned())), Some(Json::Number("3".to_owned()))];
    assert_eq!(recent_entries(Some(lines), 2), vec![Json::Number("3".to_owned()), Json::Number("2".to_owned())]);
}
