use sohara::json::Json;
use sohara::persistence::MemoryStore;

fn object_n(n: &str) -> Json {
    Json::Object(vec![("n".to_owned(), Json::Number(n.to_owned()))])
}

#[test]
fn memory_store_roundtrips() {
    let mut store = MemoryStore::new();
    assert_eq!(store.load("a"), None);
    store.save("a", object_n("1"));
    assert_eq!(store.load("a"), Some(object_n("1")));
    store.delete("a");
    assert_eq!(store.load("a"), None);
}

#[test]
fn memory_store_save_replaces_and_keeps_other_keys() {
    let mut store = MemoryStore::new();
    store.save("a", object_n("1"));
    store.save("b", Json::Str("x".to_owned()));
    store.save("a", object_n("2"));
    assert_eq!(store.load("a"), Some(object_n("2")));
    assert_eq!(store.load("b"), Some(Json::Str("x".to_owned())));
    assert_eq!(store.entries().len(), 2);
    store.delete("b");
    assert_eq!(store.load("a"), Some(object_n("2")));
    assert_eq!(store.entries().len(), 1);
}

#[test]
fn stored_documents_reopen_to_the_same_store() {
    let mut store = MemoryStore::new();
    store.save("run:state:count", object_n("3"));
    store.save("flow:run_id", Json::Str("run".to_owned()));
    let document = store.document();
    let reopened = MemoryStore::from_document(Some(document));
    assert_eq!(reopened.load("run:state:count"), Some(object_n("3")));
    assert_eq!(reopened.load("flow:run_id"), Some(Json::Str("run".to_owned())));
    assert_eq!(reopened.entries().len(), 2);
}

#[test]
fn unreadable_documents_open_empty() {
    assert!(MemoryStore::from_document(None).entries().is_empty());
    assert!(MemoryStore::from_document(Some(Json::Array(vec![]))).entries().is_empty());
    let twice = Json::Object(vec![("k".to_owned(), object_n("1")), ("k".to_owned(), object_n("2"))]);
    let store = MemoryStore::from_document(Some(twice));
    assert_eq!(store.load("k"), Some(object_n("2")));
    assert_eq!(store.entries().len(), 1);
}
