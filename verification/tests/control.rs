use sohara::json::Json;
use sohara::runtime::control::{
    batch_record, failure_action, foreach_children, merge_records, switch_target, with_correlation, BatchBuffer,
    FailureAction, JoinBuffer,
};
use sohara::runtime::node::{ErrorPolicy, JoinMode, SwitchCase};
use sohara::runtime::record::Record;

fn num(n: &str) -> Json {
    Json::Number(n.to_owned())
}

fn obj(members: Vec<(&str, Json)>) -> Json {
    Json::Object(members.into_iter().map(|(k, v)| (k.to_owned(), v)).collect())
}

#[test]
fn switch_picks_first_true_case_else_default() {
    let cases = vec![
        SwitchCase { when: "a".to_owned(), to: "first".to_owned() },
        SwitchCase { when: "b".to_owned(), to: "second".to_owned() },
    ];
    let default = "fallback".to_owned();
    assert_eq!(switch_target(&cases, &vec![false, true], &default), "second");
    assert_eq!(switch_target(&cases, &vec![true, true], &default), "first");
    assert_eq!(switch_target(&cases, &vec![false, false], &default), "fallback");
    assert_eq!(switch_target(&cases, &vec![], &default), "fallback");
}

#[test]
fn foreach_expands_items_into_the_field_and_caps() {
    let record = Record::new(obj(vec![("n", num("1"))]));
    let items = vec![Json::Str("a".to_owned()), Json::Str("b".to_owned()), Json::Str("c".to_owned())];
    let (children, capped) = foreach_children(&record, items, &None, 2);
    assert!(capped);
    assert_eq!(children.len(), 2);
    assert_eq!(children[0].payload, obj(vec![("n", num("1")), ("item", Json::Str("a".to_owned()))]));
    assert_eq!(children[1].payload, obj(vec![("n", num("1")), ("item", Json::Str("b".to_owned()))]));
    let items = vec![Json::Str("x".to_owned())];
    let (children, capped) = foreach_children(&record, items, &Some("it".to_owned()), 5);
    assert!(!capped);
    assert_eq!(children[0].payload, obj(vec![("n", num("1")), ("it", Json::Str("x".to_owned()))]));
}

#[test]
fn join_all_mode_releases_when_every_route_delivered() {
    let mut join = JoinBuffer::new(JoinMode::All, 0, 2);
    assert!(join.offer("c1", Record::new(obj(vec![("a", num("1"))]))).is_none());
    assert!(join.offer("c2", Record::new(obj(vec![("x", num("9"))]))).is_none());
    let released = join.offer("c1", Record::new(obj(vec![("b", num("2"))]))).unwrap();
    assert_eq!(released.len(), 2);
    let merged = merge_records(released);
    assert_eq!(merged.payload, obj(vec![("a", num("1")), ("b", num("2"))]));
    // the group starts over after its release
    assert!(join.offer("c1", Record::new(obj(vec![]))).is_none());
}

#[test]
fn join_any_mode_releases_every_record() {
    let mut join = JoinBuffer::new(JoinMode::Any, 0, 3);
    let released = join.offer("c", Record::new(num("1"))).unwrap();
    assert_eq!(released.len(), 1);
}

#[test]
fn merge_sets_later_members_over_earlier_ones() {
    let merged = merge_records(vec![
        Record::new(obj(vec![("a", num("1")), ("b", num("1"))])),
        Record::new(num("7")),
        Record::new(obj(vec![("b", num("2")), ("c", num("3"))])),
    ]);
    assert_eq!(merged.payload, obj(vec![("a", num("1")), ("b", num("2")), ("c", num("3"))]));
    assert_eq!(merge_records(vec![]).payload, obj(vec![]));
}

#[test]
fn records_keep_their_id_through_foreach_and_join() {
    let first = Record::new(obj(vec![("a", num("1"))]));
    let second = Record::new(obj(vec![("b", num("2"))]));
    assert_eq!(first.id.len(), 36);
    assert_ne!(first.id, second.id);
    assert!(first.timestamp.ends_with("+00:00"));
    let (children, _) = foreach_children(&first, vec![num("5")], &None, 3);
    assert_eq!(children[0].id, first.id);
    assert_eq!(children[0].timestamp, first.timestamp);
    let (id, time) = (first.id.clone(), first.timestamp.clone());
    let merged = merge_records(vec![first, second]);
    assert_eq!(merged.id, id);
    assert_eq!(merged.timestamp, time);
    assert_eq!(merge_records(vec![]).id.len(), 36);
}

#[test]
fn batch_flushes_on_size_and_at_eof() {
    let mut batch = BatchBuffer::new();
    assert!(batch.offer(Record::new(num("1")), Some(2), None, 0).is_none());
    let flushed = batch.offer(Record::new(num("2")), Some(2), None, 1).unwrap();
    assert_eq!(flushed.len(), 2);
    assert!(batch.offer(Record::new(num("3")), Some(2), None, 2).is_none());
    let rest = batch.drain();
    assert_eq!(rest.len(), 1);
    let emitted = batch_record(&flushed);
    assert_eq!(emitted.payload, obj(vec![("items", Json::Array(vec![num("1"), num("2")]))]));
}

#[test]
fn batch_flushes_when_its_window_elapses() {
    let mut batch = BatchBuffer::new();
    assert!(batch.offer(Record::new(num("1")), None, Some(100), 1000).is_none());
    assert_eq!(batch.since, Some(1000));
    assert!(batch.offer(Record::new(num("2")), None, Some(100), 1050).is_none());
    let flushed = batch.offer(Record::new(num("3")), None, Some(100), 1100).unwrap();
    assert_eq!(flushed.len(), 3);
    assert_eq!(batch.since, None);
}

#[test]
fn retry_then_fail_continue_and_fail_policies() {
    let retry = ErrorPolicy::Retry { max: 2, backoff_millis: 1 };
    assert_eq!(failure_action(retry, 0), FailureAction::Retry { attempt: 1, backoff_millis: 1 });
    assert_eq!(failure_action(retry, 1), FailureAction::Retry { attempt: 2, backoff_millis: 1 });
    assert_eq!(failure_action(retry, 2), FailureAction::Fail);
    assert_eq!(failure_action(ErrorPolicy::Continue, 0), FailureAction::Continue);
    assert_eq!(failure_action(ErrorPolicy::Fail, 0), FailureAction::Fail);
}

#[test]
fn parallel_adds_a_correlation_only_when_missing() {
    let fresh = with_correlation(Record::new(num("1")));
    assert_eq!(fresh.metadata.len(), 1);
    assert_eq!(fresh.metadata[0].0, "correlation");
    assert_eq!(fresh.metadata[0].1.len(), 36);
    let mut tagged = Record::new(num("1"));
    tagged.metadata.push(("correlation".to_owned(), "c-1".to_owned()));
    let kept = with_correlation(tagged);
    assert_eq!(kept.metadata, vec![("correlation".to_owned(), "c-1".to_owned())]);
}
