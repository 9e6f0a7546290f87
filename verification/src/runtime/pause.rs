//! The pause gate of a served flow: while paused, the executor holds pulled
//! source records unprocessed (so back pressure reaches the sources) until
//! resumed.

use vstd::prelude::*;

verus! {

/// A pause flag; waiting for it to clear is the caller's part.
#[derive(Debug)]
pub struct PauseGate {
    paused: bool,
}

impl PauseGate {
    /// True while intake is held.
    pub closed spec fn is_closed(&self) -> bool {
        self.paused
    }

    /// An open gate.
    pub fn new() -> (r: PauseGate)
        ensures
            !r.is_closed(),
    {
        PauseGate { paused: false }
    }

    /// True while intake is held.
    pub fn paused(&self) -> (r: bool)
        ensures
            r == self.is_closed(),
    {
        self.paused
    }

    /// Set the paused state; returns whether the waiters are to be woken,
    /// which resuming asks for.
    pub fn set_paused(&mut self, paused: bool) -> (wake: bool)
        ensures
            final(self).is_closed() == paused,
            wake == !paused,
    {
        self.paused = paused;
        !paused
    }
}

impl Default for PauseGate {
    fn default() -> (r: PauseGate)
        ensures
            !r.is_closed(),
    {
        PauseGate::new()
    }
}

} // verus!
