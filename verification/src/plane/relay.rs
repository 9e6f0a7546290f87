//! The relay: per-topic bounded mailboxes with cursor-based delivery.
//!
//! Publishing appends a message with the topic's next sequence number and
//! drops the oldest message beyond [`RELAY_CAP`]; pulling delivers, per
//! subscription, at most [`RELAY_BATCH`] messages newer than the
//! subscription's cursor and reports the advanced cursor.

use vstd::prelude::*;

use crate::json::{Json, JsonView};
use crate::keyed::Keyed;
use crate::plane::registry::keep_last;

verus! {

/// Maximum retained messages per topic; overflow drops the oldest.
pub const RELAY_CAP: usize = 1000;

/// Maximum messages delivered per subscription and pull.
pub const RELAY_BATCH: u64 = 100;

/// One buffered relay message.
#[derive(Debug)]
pub struct RelayEntry {
    pub seq: u64,
    pub payload: Json,
}

/// Per-topic bounded message buffer.
#[derive(Debug)]
pub struct RelayQueue {
    pub topic: String,
    /// The last sequence number handed out on this topic.
    pub seq: u64,
    /// Buffered messages, oldest first.
    pub buffer: Vec<RelayEntry>,
}

impl Keyed for RelayQueue {
    open spec fn key(&self) -> Seq<char> {
        self.topic@
    }

    fn key_str(&self) -> (r: &str) {
        self.topic.as_str()
    }
}

/// A delivered relay message.
#[derive(Debug)]
pub struct RelayMessage {
    pub topic: String,
    pub seq: u64,
    pub payload: Json,
}

/// A subscription cursor: deliver messages of `topic` after `after`.
#[derive(Debug, Clone)]
pub struct PullSubscription {
    pub topic: String,
    pub after: u64,
}

/// The sequence numbers and payloads of a buffer.
pub open spec fn entries_view(b: Seq<RelayEntry>) -> Seq<(u64, JsonView)> {
    b.map_values(|e: RelayEntry| (e.seq, e.payload@))
}

/// The topic, sequence number and payload of each delivered message.
pub open spec fn messages_view(m: Seq<RelayMessage>) -> Seq<(Seq<char>, u64, JsonView)> {
    m.map_values(|e: RelayMessage| (e.topic@, e.seq, e.payload@))
}

/// The topic and cursor of each subscription.
pub open spec fn subscriptions_view(s: Seq<PullSubscription>) -> Seq<(Seq<char>, u64)> {
    s.map_values(|e: PullSubscription| (e.topic@, e.after))
}

/// One queue is well formed: bounded, its sequence numbers strictly
/// increasing and none beyond the topic's counter.
pub open spec fn queue_wf(q: RelayQueue) -> bool {
    &&& q.buffer@.len() <= RELAY_CAP
    &&& forall|i: int, j: int|
        0 <= i < j < q.buffer@.len() ==> (#[trigger] q.buffer@[i]).seq < (#[trigger] q.buffer@[j]).seq
    &&& forall|i: int| 0 <= i < q.buffer@.len() ==> (#[trigger] q.buffer@[i]).seq <= q.seq
}

/// Every relay mailbox is well formed.
pub open spec fn relay_wf(queues: Seq<RelayQueue>) -> bool {
    forall|i: int| 0 <= i < queues.len() ==> queue_wf(#[trigger] queues[i])
}

/// The entries of `b` newer than `after`, in order.
pub open spec fn newer(b: Seq<(u64, JsonView)>, after: u64) -> Seq<(u64, JsonView)>
    decreases b.len(),
{
    if b.len() == 0 {
        Seq::empty()
    } else if b.last().0 > after {
        newer(b.drop_last(), after).push(b.last())
    } else {
        newer(b.drop_last(), after)
    }
}

/// The entries one pull delivers: the first [`RELAY_BATCH`] newer ones.
pub open spec fn batch(b: Seq<(u64, JsonView)>, after: u64) -> Seq<(u64, JsonView)> {
    let n = newer(b, after);
    if n.len() > RELAY_BATCH {
        n.take(RELAY_BATCH as int)
    } else {
        n
    }
}

/// The cursor after one pull: the last delivered sequence number, or the
/// old cursor when nothing was delivered.
pub open spec fn cursor_after(b: Seq<(u64, JsonView)>, after: u64) -> u64 {
    let d = batch(b, after);
    if d.len() == 0 {
        after
    } else {
        d.last().0
    }
}

/// Every entry of `newer(b, after)` is an entry of `b` newer than `after`.
pub proof fn lemma_newer_members(b: Seq<(u64, JsonView)>, after: u64)
    ensures
        forall|i: int| 0 <= i < newer(b, after).len() ==> (#[trigger] newer(b, after)[i]).0 > after,
        forall|i: int|
            0 <= i < newer(b, after).len() ==> exists|j: int|
                0 <= j < b.len() && b[j] == #[trigger] newer(b, after)[i],
        newer(b, after).len() <= b.len(),
    decreases b.len(),
{
    if b.len() > 0 {
        lemma_newer_members(b.drop_last(), after);
        let n0 = newer(b.drop_last(), after);
        assert forall|i: int| 0 <= i < newer(b, after).len() implies exists|j: int|
            0 <= j < b.len() && b[j] == #[trigger] newer(b, after)[i] by {
            if i < n0.len() {
                let j = choose|j: int| 0 <= j < b.drop_last().len() && b.drop_last()[j] == n0[i];
                assert(b[j] == newer(b, after)[i]);
            } else {
                assert(b[b.len() - 1] == newer(b, after)[i]);
            }
        }
    }
}

/// In an increasing buffer whose entries are all at most `after`, nothing is newer.
pub proof fn lemma_newer_none(b: Seq<(u64, JsonView)>, after: u64)
    requires
        forall|i: int| 0 <= i < b.len() ==> (#[trigger] b[i]).0 <= after,
    ensures
        newer(b, after) == Seq::<(u64, JsonView)>::empty(),
    decreases b.len(),
{
    if b.len() > 0 {
        lemma_newer_none(b.drop_last(), after);
    }
}

/// Delivered sequence numbers are increasing when the buffer's are.
pub proof fn lemma_newer_increasing(b: Seq<(u64, JsonView)>, after: u64)
    requires
        forall|i: int, j: int| 0 <= i < j < b.len() ==> (#[trigger] b[i]).0 < (#[trigger] b[j]).0,
    ensures
        forall|i: int, j: int|
            0 <= i < j < newer(b, after).len() ==> (#[trigger] newer(b, after)[i]).0 < (
            #[trigger] newer(b, after)[j]).0,
    decreases b.len(),
{
    if b.len() > 0 {
        let p = b.drop_last();
        lemma_newer_increasing(p, after);
        lemma_newer_members(p, after);
        let n0 = newer(p, after);
        assert forall|i: int, j: int| 0 <= i < j < newer(b, after).len() implies (
        #[trigger] newer(b, after)[i]).0 < (#[trigger] newer(b, after)[j]).0 by {
            if j >= n0.len() {
                let k = choose|k: int| 0 <= k < p.len() && p[k] == n0[i];
                assert(b[k].0 < b[b.len() - 1].0);
            }
        }
    }
}

/// Append `payload` to a queue with the next sequence number, dropping the
/// oldest entry beyond the cap.
pub fn publish_into(q: &mut RelayQueue, payload: Json)
    requires
        queue_wf(*old(q)),
        old(q).seq < u64::MAX,
    ensures
        queue_wf(*final(q)),
        final(q).topic == old(q).topic,
        final(q).seq == old(q).seq + 1,
        entries_view(final(q).buffer@) == keep_last(
            entries_view(old(q).buffer@).push((final(q).seq, payload@)),
            RELAY_CAP as nat,
        ),
{
    q.seq = q.seq + 1;
    let ghost before = q.buffer@;
    let ghost pv = payload@;
    q.buffer.push(RelayEntry { seq: q.seq, payload });
    let ghost pushed = q.buffer@;
    assert(entries_view(pushed) =~= entries_view(before).push((q.seq, pv)));
    if q.buffer.len() > RELAY_CAP {
        q.buffer.remove(0);
        assert(q.buffer@ =~= pushed.subrange(1, pushed.len() as int));
    }
    assert(entries_view(q.buffer@) =~= keep_last(entries_view(pushed), RELAY_CAP as nat));
}

/// Deliver the batch of `q` newer than `after`, appending the messages to
/// `out`; returns the advanced cursor.
pub fn pull_from(q: &RelayQueue, topic: &String, after: u64, out: &mut Vec<RelayMessage>) -> (r: u64)
    ensures
        messages_view(final(out)@) == messages_view(old(out)@) + batch(entries_view(q.buffer@), after).map_values(
            |e: (u64, JsonView)| (topic@, e.0, e.1),
        ),
        r == cursor_after(entries_view(q.buffer@), after),
{
    let ghost b = entries_view(q.buffer@);
    let ghost start = messages_view(out@);
    let mut delivered: u64 = 0;
    let mut cursor: u64 = after;
    let mut i: usize = 0;
    while i < q.buffer.len()
        invariant
            b == entries_view(q.buffer@),
            i <= q.buffer@.len(),
            ({
                let n = newer(b.subrange(0, i as int), after);
                &&& delivered as int == if n.len() > RELAY_BATCH { RELAY_BATCH as int } else { n.len() as int }
                &&& messages_view(out@) == start + n.take(delivered as int).map_values(
                    |e: (u64, JsonView)| (topic@, e.0, e.1),
                )
                &&& cursor == if delivered == 0 { after } else { n[delivered - 1].0 }
            }),
        decreases q.buffer.len() - i,
    {
        let ghost pre = b.subrange(0, i as int);
        let ghost next = b.subrange(0, i + 1);
        assert(next.drop_last() =~= pre);
        assert(next.last() == b[i as int]);
        let entry = &q.buffer[i];
        if entry.seq > after && delivered < RELAY_BATCH {
            let ghost before = messages_view(out@);
            let payload = entry.payload.duplicate();
            out.push(RelayMessage { topic: topic.clone(), seq: entry.seq, payload });
            proof {
                let n0 = newer(pre, after);
                let n1 = newer(next, after);
                assert(n1 == n0.push(b[i as int]));
                assert(n1.take(delivered + 1) =~= n0.take(delivered as int).push(b[i as int]));
                assert(messages_view(out@) =~= before.push((topic@, entry.seq, entry.payload@)));
                assert(n1.take(delivered + 1).map_values(|e: (u64, JsonView)| (topic@, e.0, e.1)) =~= n0.take(
                    delivered as int,
                ).map_values(|e: (u64, JsonView)| (topic@, e.0, e.1)).push((topic@, entry.seq, entry.payload@)));
            }
            cursor = entry.seq;
            delivered = delivered + 1;
        } else {
            proof {
                let n0 = newer(pre, after);
                let n1 = newer(next, after);
                if entry.seq > after {
                    assert(n1 == n0.push(b[i as int]));
                    assert(n1.take(delivered as int) =~= n0.take(delivered as int));
                } else {
                    assert(n1 == n0);
                }
            }
        }
        i = i + 1;
    }
    proof {
        assert(b.subrange(0, q.buffer@.len() as int) =~= b);
        let n = newer(b, after);
        if n.len() <= RELAY_BATCH {
            assert(n.take(n.len() as int) =~= n);
        }
        lemma_newer_members(b, after);
        if delivered > 0 {
            assert(n[delivered - 1].0 > after);
            assert(batch(b, after).last() == n[delivered - 1]);
        }
    }
    if cursor > after {
        cursor
    } else {
        after
    }
}

} // verus!
