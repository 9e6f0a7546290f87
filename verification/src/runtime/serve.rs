//! Serve mode: trigger summaries, relay topics, approvals and run history.

use vstd::prelude::*;

use crate::json::Json;
use crate::script::{get_member, member};
use crate::text::str_eq;

verus! {

/// One trigger of the served flow (for the status endpoint).
#[derive(Debug)]
pub struct TriggerInfo {
    pub id: String,
    pub kind: String,
}

/// A trigger as a flow declares it.
#[derive(Debug)]
pub struct TriggerDecl {
    pub id: String,
    pub trigger_type: String,
    pub config: Json,
}

/// The topic a trigger subscribes, when it is a `queue` trigger whose
/// config names a string topic.
pub open spec fn queue_topic(t: TriggerDecl) -> Option<String> {
    if t.trigger_type@ == "queue"@ {
        match member(t.config, "topic"@) {
            Some(Json::Str(s)) => Some(s),
            _ => None,
        }
    } else {
        None
    }
}

/// The topics of a flow's queue triggers, in order.
pub open spec fn queue_topics_spec(ts: Seq<TriggerDecl>) -> Seq<String>
    decreases ts.len(),
{
    if ts.len() == 0 {
        Seq::empty()
    } else {
        queue_topics_spec(ts.drop_last()) + match queue_topic(ts.last()) {
            Some(s) => seq![s],
            None => Seq::empty(),
        }
    }
}

/// Topics subscribed by the flow's queue triggers (relay subscriptions).
pub fn queue_topics(triggers: &Vec<TriggerDecl>) -> (r: Vec<String>)
    ensures
        r@ == queue_topics_spec(triggers@),
{
    let mut r: Vec<String> = Vec::new();
    let mut i: usize = 0;
    while i < triggers.len()
        invariant
            i <= triggers@.len(),
            r@ == queue_topics_spec(triggers@.subrange(0, i as int)),
        decreases triggers.len() - i,
    {
        let t = &triggers[i];
        assert(triggers@.subrange(0, i + 1).drop_last() =~= triggers@.subrange(0, i as int));
        if str_eq(t.trigger_type.as_str(), "queue") {
            match get_member(&t.config, "topic") {
                Some(Json::Str(s)) => {
                    r.push(s.clone());
                },
                _ => {},
            }
        }
        assert(r@ =~= queue_topics_spec(triggers@.subrange(0, i + 1)));
        i = i + 1;
    }
    assert(triggers@.subrange(0, triggers@.len() as int) =~= triggers@);
    r
}

/// A trigger is a `queue` trigger whose config names a string topic.
pub open spec fn subscribes(t: TriggerDecl) -> bool {
    queue_topic(t) is Some
}

/// The subscribed topics are the topics of the queue triggers that name
/// one, in trigger order and none left out: the list is those triggers,
/// filtered out of all of them, each replaced by its topic.
pub proof fn queue_topics_are_every_queue_trigger(ts: Seq<TriggerDecl>)
    ensures
        queue_topics_spec(ts) == ts.filter(|t: TriggerDecl| subscribes(t)).map_values(|t: TriggerDecl| queue_topic(t)->0),
        queue_topics_spec(ts).len() == ts.filter(|t: TriggerDecl| subscribes(t)).len(),
        forall|i: int|
            0 <= i < ts.len() && (#[trigger] ts[i]).trigger_type@ == "queue"@ ==> match member(ts[i].config, "topic"@) {
                Some(Json::Str(s)) => queue_topics_spec(ts).contains(s),
                _ => true,
            },
    decreases ts.len(),
{
    let pred = |t: TriggerDecl| subscribes(t);
    let f = |t: TriggerDecl| queue_topic(t)->0;
    if ts.len() == 0 {
        reveal(Seq::filter);
        assert(ts.filter(pred) =~= Seq::<TriggerDecl>::empty());
        assert(ts.filter(pred).map_values(f) =~= Seq::<String>::empty());
    } else {
        let init = ts.drop_last();
        queue_topics_are_every_queue_trigger(init);
        assert(init.push(ts.last()) =~= ts);
        init.lemma_filter_push(ts.last(), pred);
        if subscribes(ts.last()) {
            assert(init.filter(pred).push(ts.last()).map_values(f) =~= init.filter(pred).map_values(f).push(f(ts.last())));
            assert(queue_topics_spec(ts) =~= queue_topics_spec(init).push(queue_topic(ts.last())->0));
        } else {
            assert(queue_topics_spec(ts) =~= queue_topics_spec(init));
        }
        assert forall|i: int|
            0 <= i < ts.len() && (#[trigger] ts[i]).trigger_type@ == "queue"@ implies match member(ts[i].config, "topic"@) {
                Some(Json::Str(s)) => queue_topics_spec(ts).contains(s),
                _ => true,
            } by {
            match member(ts[i].config, "topic"@) {
                Some(Json::Str(s)) => {
                    if i < ts.len() - 1 {
                        assert(init[i] == ts[i]);
                        assert(queue_topics_spec(init).contains(s));
                        let j = choose|j: int| 0 <= j < queue_topics_spec(init).len() && queue_topics_spec(init)[j] == s;
                        assert(queue_topics_spec(ts)[j] == s);
                    } else {
                        assert(queue_topic(ts.last()) == Some(s));
                        assert(queue_topics_spec(ts).last() == s);
                    }
                },
                _ => {},
            }
        }
    }
}

/// The trigger summaries of a flow.
pub fn trigger_infos(triggers: &Vec<TriggerDecl>) -> (r: Vec<TriggerInfo>)
    ensures
        r@.len() == triggers@.len(),
        forall|i: int|
            0 <= i < r@.len() ==> (#[trigger] r@[i]).id == triggers@[i].id && r@[i].kind == triggers@[i].trigger_type,
{
    let mut r: Vec<TriggerInfo> = Vec::new();
    let mut i: usize = 0;
    while i < triggers.len()
        invariant
            i <= triggers@.len(),
            r@.len() == i,
            forall|q: int|
                0 <= q < i ==> (#[trigger] r@[q]).id == triggers@[q].id && r@[q].kind == triggers@[q].trigger_type,
        decreases triggers.len() - i,
    {
        r.push(TriggerInfo { id: triggers[i].id.clone(), kind: triggers[i].trigger_type.clone() });
        i = i + 1;
    }
    r
}

/// Whether an `approve` step's queue is released: every approve step when
/// no step is named, else only the named one.
pub fn approve_selected(id: &str, filter: Option<&str>) -> (r: bool)
    ensures
        r == match filter {
            None => true,
            Some(f) => f@ == id@,
        },
{
    match filter {
        None => true,
        Some(f) => str_eq(f, id),
    }
}

/// The status a run's history entry records.
pub fn run_status(succeeded: bool) -> (r: &'static str)
    ensures
        r@ == if succeeded {
            "ok"@
        } else {
            "error"@
        },
{
    if succeeded {
        "ok"
    } else {
        "error"
    }
}

/// The most recent `limit` history entries, newest first, from the entries
/// read in file order.
pub fn newest_first(entries: Vec<Json>, limit: usize) -> (r: Vec<Json>)
    ensures
        r@ == entries@.reverse().take(if limit < entries@.len() {
            limit as int
        } else {
            entries@.len() as int
        }),
{
    let ghost all = entries@;
    let mut entries = entries;
    let mut r: Vec<Json> = Vec::new();
    let n = entries.len();
    while entries.len() > 0 && r.len() < limit
        invariant
            entries@.len() + r@.len() == n,
            n == all.len(),
            entries@ == all.subrange(0, entries@.len() as int),
            r@ == all.reverse().take(r@.len() as int),
            r@.len() <= limit,
        decreases entries.len(),
    {
        let e = entries.pop().unwrap();
        let ghost k: int = r@.len() as int;
        assert(e == all[entries@.len() as int]);
        r.push(e);
        assert(r@ =~= all.reverse().take(k + 1));
        assert(entries@ =~= all.subrange(0, entries@.len() as int));
    }
    r
}

/// The lines of a history file that parsed as JSON, in file order.
pub open spec fn parsed_lines(lines: Seq<Option<Json>>) -> Seq<Json>
    decreases lines.len(),
{
    if lines.len() == 0 {
        Seq::empty()
    } else {
        parsed_lines(lines.drop_last()) + match lines.last() {
            Some(j) => seq![j],
            None => Seq::empty(),
        }
    }
}

/// The most recent `limit` history entries, newest first, from a history
/// file read line by line: `lines` is `None` when the file does not exist
/// (no entries), else each line parsed as JSON (`None` for a line that did
/// not parse, which is skipped).
pub fn recent_entries(lines: Option<Vec<Option<Json>>>, limit: usize) -> (r: Vec<Json>)
    ensures
        match lines {
            None => r@.len() == 0,
            Some(ls) => {
                let entries = parsed_lines(ls@);
                r@ == entries.reverse().take(if limit < entries.len() {
                    limit as int
                } else {
                    entries.len() as int
                })
            },
        },
{
    match lines {
        None => Vec::new(),
        Some(ls) => {
            let ghost all = ls@;
            let mut ls = ls;
            let mut entries: Vec<Json> = Vec::new();
            let mut i: usize = 0;
            let n = ls.len();
            while ls.len() > 0
                invariant
                    n == all.len(),
                    i + ls@.len() == n,
                    ls@ == all.subrange(i as int, n as int),
                    entries@ == parsed_lines(all.subrange(0, i as int)),
                decreases ls.len(),
            {
                let line = ls.remove(0);
                assert(all.subrange(0, i + 1).drop_last() =~= all.subrange(0, i as int));
                assert(line == all[i as int]);
                match line {
                    Some(j) => {
                        entries.push(j);
                    },
                    None => {},
                }
                proof {
                    assert(entries@ =~= parsed_lines(all.subrange(0, i + 1)));
                }
                i = i + 1;
                assert(ls@ =~= all.subrange(i as int, n as int));
            }
            assert(all.subrange(0, n as int) =~= all);
            newest_first(entries, limit)
        },
    }
}

} // verus!
