//! Persistence of a run: store keys, step states, checkpoints, approval
//! queues and idempotent delivery.

use vstd::prelude::*;

use crate::clock::new_uuid;
use crate::json::{items_view, lemma_members_view, members_view, Json, JsonView};
use crate::persistence::MemoryStore;
use crate::runtime::graph::FlowGraph;
use crate::runtime::node::Node;
use crate::runtime::record::{meta_value, Record};
use crate::text::{concat2, concat3, digits, hexadecimal};

verus! {

/// The key a step's accumulated state is stored under.
pub fn state_key(run_id: &str, node_id: &str) -> (r: String)
    ensures
        r@ == run_id@ + ":state:"@ + node_id@,
{
    concat3(run_id, ":state:", node_id)
}

/// The key a step's approval queue is stored under.
pub fn approve_key(flow: &str, node_id: &str) -> (r: String)
    ensures
        r@ == flow@ + ":approve:"@ + node_id@,
{
    concat3(flow, ":approve:", node_id)
}

/// The key the current run id of a flow is stored under.
pub fn run_id_key(flow: &str) -> (r: String)
    ensures
        r@ == flow@ + ":run_id"@,
{
    concat2(flow, ":run_id")
}

/// The idempotency part of a delivery marker: the record's explicit
/// `idempotency_key`, or `hash-` and the hexadecimal hash of its payload.
pub open spec fn delivery_id(record: Record, payload_hash: u64) -> Seq<char> {
    match meta_value(record.metadata@, "idempotency_key"@) {
        Some(k) => k@,
        None => "hash-"@ + digits(payload_hash as nat, 16),
    }
}

/// The key that marks a record as delivered in a run; `payload_hash` is the
/// hash of the payload's serialized text.
pub fn delivered_key(run_id: &str, record: &Record, payload_hash: u64) -> (r: String)
    ensures
        r@ == run_id@ + ":delivered:"@ + delivery_id(*record, payload_hash),
{
    let key = match record.meta("idempotency_key") {
        Some(k) => k,
        None => {
            let h = hexadecimal(payload_hash);
            concat2("hash-", h.as_str())
        },
    };
    concat3(run_id, ":delivered:", key.as_str())
}

/// The value a step's expressions evaluate against: `{ record, state }`
/// when the step has accumulated state, otherwise the payload itself.
pub open spec fn eval_view(payload: JsonView, state: Option<JsonView>) -> JsonView {
    match state {
        Some(s) => JsonView::Object(seq![("record"@, payload), ("state"@, s)]),
        None => payload,
    }
}

/// Build the value a step's expressions evaluate against.
pub fn eval_value(payload: &Json, state: Option<&Json>) -> (r: Json)
    ensures
        r@ == eval_view(payload@, match state {
            Some(s) => Some(s@),
            None => None,
        }),
{
    match state {
        Some(s) => {
            let mut members: Vec<(String, Json)> = Vec::new();
            members.push(("record".to_owned(), payload.duplicate()));
            members.push(("state".to_owned(), s.duplicate()));
            proof {
                lemma_members_view(members@);
                assert(members_view(members@) =~= seq![("record"@, payload@), ("state"@, s@)]);
            }
            Json::Object(members)
        },
        None => payload.duplicate(),
    }
}

/// The records parked in an approval queue, given what the store holds
/// under its key: the items of an array, nothing otherwise.
pub open spec fn parked_view(stored: Option<JsonView>) -> Seq<JsonView> {
    match stored {
        Some(JsonView::Array(items)) => items,
        _ => Seq::empty(),
    }
}

/// The items of a stored approval queue.
pub fn parked_items(stored: Option<Json>) -> (r: Vec<Json>)
    ensures
        items_view(r@) == parked_view(match stored {
            Some(s) => Some(s@),
            None => None,
        }),
{
    match stored {
        Some(Json::Array(items)) => items,
        _ => Vec::new(),
    }
}

/// The queue to store after parking one more payload.
pub fn park(stored: Option<Json>, payload: Json) -> (r: Json)
    ensures
        r@ == JsonView::Array(parked_view(match stored {
            Some(s) => Some(s@),
            None => None,
        }).push(payload@)),
{
    let mut items = parked_items(stored);
    let ghost before = items@;
    items.push(payload);
    assert(items@.drop_last() =~= before);
    Json::Array(items)
}

/// The records taken out of a stored approval queue, in parking order.
pub fn unpark(stored: Option<Json>) -> (r: Vec<Record>)
    ensures
        r@.len() == parked_view(match stored {
            Some(s) => Some(s@),
            None => None,
        }).len(),
        forall|i: int|
            0 <= i < r@.len() ==> (#[trigger] r@[i]).payload@ == parked_view(match stored {
                Some(s) => Some(s@),
                None => None,
            })[i] && r@[i].metadata@.len() == 0,
{
    let items = parked_items(stored);
    let ghost all = items@;
    proof {
        crate::json::lemma_items_view(all);
    }
    let mut items = items;
    let total = items.len();
    let mut out: Vec<Record> = Vec::new();
    let mut i: usize = 0;
    while items.len() > 0
        invariant
            all.len() == total,
            i + items@.len() == all.len(),
            items@ == all.subrange(i as int, all.len() as int),
            out@.len() == i,
            forall|q: int| 0 <= q < i ==> (#[trigger] out@[q]).payload == all[q] && out@[q].metadata@.len() == 0,
        decreases items.len(),
    {
        let item = items.remove(0);
        assert(item == all[i as int]);
        out.push(Record::new(item));
        i = i + 1;
        assert(items@ =~= all.subrange(i as int, all.len() as int));
    }
    out
}

/// The run id to use: when resuming, the stored run id (a JSON string);
/// otherwise a fresh random id, which the flag says must be stored.
pub fn resolve_run_id(resume: bool, stored: Option<Json>) -> (r: (String, bool))
    ensures
        resume ==> (stored matches Some(Json::Str(id)) ==> r.0 == id && !r.1),
        !resume || !(stored matches Some(Json::Str(_))) ==> r.0@.len() == 36 && r.1,
{
    if resume {
        match stored {
            Some(Json::Str(id)) => {
                return (id, false);
            },
            _ => {},
        }
    }
    (new_uuid(), true)
}

/// The initial state of a step: none unless the step declares one; the
/// saved state when resuming and one was saved, else the declared one.
pub fn initial_state(declared: Option<Json>, resume: bool, saved: Option<Json>) -> (r: Option<Json>)
    ensures
        declared is None ==> r is None,
        declared is Some && resume && saved is Some ==> r == saved,
        declared is Some && !(resume && saved is Some) ==> r == declared,
{
    match declared {
        None => None,
        Some(d) => if resume && saved.is_some() {
            saved
        } else {
            Some(d)
        },
    }
}

/// The steps that keep a state, in order: id and declared initial state.
pub open spec fn declared_states(nodes: Seq<Node>) -> Seq<(Seq<char>, JsonView)>
    decreases nodes.len(),
{
    if nodes.len() == 0 {
        Seq::empty()
    } else {
        let rest = declared_states(nodes.drop_last());
        match nodes.last().state {
            Some(d) => rest.push((nodes.last().id@, d@)),
            None => rest,
        }
    }
}

/// The state a step starts a run with: the one saved under `key` when
/// resuming with a store that holds one, else the declared one.
pub open spec fn restored_state(
    declared: JsonView,
    key: Seq<char>,
    resume: bool,
    store: Option<Map<Seq<char>, JsonView>>,
) -> JsonView {
    match store {
        Some(m) => if resume && m.contains_key(key) {
            m[key]
        } else {
            declared
        },
        None => declared,
    }
}

/// The store's contents, when there is a store.
pub open spec fn store_view(store: Option<&MemoryStore>) -> Option<Map<Seq<char>, JsonView>> {
    match store {
        Some(s) => Some(s@),
        None => None,
    }
}

/// The initial state of every step of the graph that keeps one, in step
/// order, for run `run_id`.
pub fn initial_states(graph: &FlowGraph, run_id: &str, resume: bool, store: Option<&MemoryStore>) -> (r: Vec<(String, Json)>)
    requires
        store matches Some(s) ==> s.wf(),
    ensures
        r@.len() == declared_states(graph.nodes@).len(),
        forall|i: int| 0 <= i < r@.len() ==> {
            let (id, declared) = declared_states(graph.nodes@)[i];
            &&& (#[trigger] r@[i]).0@ == id
            &&& r@[i].1@ == restored_state(declared, run_id@ + ":state:"@ + id, resume, store_view(store))
        },
{
    let nodes = &graph.nodes;
    let mut out: Vec<(String, Json)> = Vec::new();
    let mut i: usize = 0;
    while i < nodes.len()
        invariant
            i <= nodes@.len(),
            store matches Some(s) ==> s.wf(),
            out@.len() == declared_states(nodes@.subrange(0, i as int)).len(),
            forall|k: int| 0 <= k < out@.len() ==> {
                let (id, declared) = declared_states(nodes@.subrange(0, i as int))[k];
                &&& (#[trigger] out@[k]).0@ == id
                &&& out@[k].1@ == restored_state(declared, run_id@ + ":state:"@ + id, resume, store_view(store))
            },
        decreases nodes.len() - i,
    {
        let node = &nodes[i];
        let ghost prefix = nodes@.subrange(0, i as int);
        let ghost next = nodes@.subrange(0, i + 1);
        assert(next.drop_last() =~= prefix);
        assert(next.last() == nodes@[i as int]);
        match &node.state {
            Some(declared) => {
                let key = state_key(run_id, node.id.as_str());
                let saved = match store {
                    Some(s) => if resume {
                        s.load(key.as_str())
                    } else {
                        None
                    },
                    None => None,
                };
                let value = match saved {
                    Some(v) => v,
                    None => declared.duplicate(),
                };
                out.push((node.id.clone(), value));
            },
            None => {},
        }
        i = i + 1;
    }
    assert(nodes@.subrange(0, nodes@.len() as int) =~= nodes@);
    out
}

/// Count one delivery towards the next checkpoint: the new count, and
/// whether a checkpoint is due (which resets the count).
pub fn checkpoint_due(every: Option<u64>, since: u64) -> (r: (u64, bool))
    requires
        since < u64::MAX,
    ensures
        every is None ==> r == (since, false),
        every matches Some(e) ==> r.1 == (since + 1 >= e) && r.0 == if since + 1 >= e { 0 } else { since + 1 },
{
    match every {
        None => (since, false),
        Some(e) => {
            let next = since + 1;
            if next >= e {
                (0, true)
            } else {
                (next, false)
            }
        },
    }
}

} // verus!
