//! Runtime observability: a bounded ring of recent errors.

use vstd::prelude::*;

use crate::clock::{now_rfc3339, utc_timestamp};

verus! {

/// Maximum number of retained error events.
pub const ERROR_RING_CAP: usize = 100;

/// One recorded runtime error, for the dashboard error stream.
#[derive(Debug)]
pub struct ErrorEvent {
    pub time: String,
    pub step: String,
    /// Error category: `when` / `transform` / `sink` / `source` / `edge`.
    pub kind: String,
    pub message: String,
}

/// A copy of an event.
pub fn copy_event(e: &ErrorEvent) -> (r: ErrorEvent)
    ensures
        r == *e,
{
    ErrorEvent { time: e.time.clone(), step: e.step.clone(), kind: e.kind.clone(), message: e.message.clone() }
}

/// A bounded ring of recent errors (newest first when read).
#[derive(Debug)]
pub struct ErrorRing {
    events: Vec<ErrorEvent>,
}

impl ErrorRing {
    /// The retained events, oldest first.
    pub closed spec fn log(self) -> Seq<ErrorEvent> {
        self.events@
    }

    /// An empty ring.
    pub fn new() -> (r: ErrorRing)
        ensures
            r.log().len() == 0,
    {
        ErrorRing { events: Vec::new() }
    }

    /// Push one event stamped with the current time, dropping the oldest
    /// when the ring is full.
    pub fn record(&mut self, step: &str, kind: &str, message: String)
        requires
            old(self).log().len() <= ERROR_RING_CAP,
        ensures
            final(self).log().len() <= ERROR_RING_CAP,
            final(self).log() == (if old(self).log().len() >= ERROR_RING_CAP {
                old(self).log().drop_first()
            } else {
                old(self).log()
            }).push(final(self).log().last()),
            final(self).log().last().step@ == step@,
            final(self).log().last().kind@ == kind@,
            final(self).log().last().message == message,
            utc_timestamp(final(self).log().last().time@),
    {
        if self.events.len() >= ERROR_RING_CAP {
            self.events.remove(0);
        }
        let ghost kept = self.events@;
        self.events.push(
            ErrorEvent { time: now_rfc3339(), step: step.to_owned(), kind: kind.to_owned(), message },
        );
        assert(self.events@ =~= kept.push(self.events@.last()));
    }

    /// The retained events, newest first.
    pub fn events(&self) -> (r: Vec<ErrorEvent>)
        ensures
            r@ == self.log().reverse(),
    {
        let mut r: Vec<ErrorEvent> = Vec::new();
        let mut i: usize = self.events.len();
        while i > 0
            invariant
                i <= self.events@.len(),
                r@ == self.events@.subrange(i as int, self.events@.len() as int).reverse(),
            decreases i,
        {
            i = i - 1;
            r.push(copy_event(&self.events[i]));
            assert(r@ =~= self.events@.subrange(i as int, self.events@.len() as int).reverse());
        }
        assert(self.events@.subrange(0, self.events@.len() as int) =~= self.events@);
        r
    }
}

/// A ring keeps at most `ERROR_RING_CAP` events, and after recording, the
/// newest event is read first.
pub proof fn ring_bounded_newest_first(before: Seq<ErrorEvent>, after: Seq<ErrorEvent>, e: ErrorEvent)
    requires
        before.len() <= ERROR_RING_CAP,
        after == (if before.len() >= ERROR_RING_CAP {
            before.drop_first()
        } else {
            before
        }).push(e),
    ensures
        after.len() <= ERROR_RING_CAP,
        after.reverse()[0] == e,
        after.reverse().drop_first() == (if before.len() >= ERROR_RING_CAP {
            before.drop_first()
        } else {
            before
        }).reverse(),
{
    let kept = if before.len() >= ERROR_RING_CAP {
        before.drop_first()
    } else {
        before
    };
    assert(after.reverse().drop_first() =~= kept.reverse());
}

} // verus!
