//! Run statistics: counters, per-step statistics and run reports.

use vstd::prelude::*;

use crate::keyed::{find_key, has_key, lemma_lookup_at, lookup, unique_keys, upsert, Keyed};

verus! {

/// Copy of the executor counters for reporting.
#[derive(Debug, Clone, Copy, PartialEq, Eq, Structural)]
pub struct StatsSnapshot {
    pub processed: usize,
    pub filtered: usize,
    pub errors: usize,
    /// Records parked by `approve` steps.
    pub waiting: usize,
    /// Records skipped because they were already delivered (resume).
    pub duplicates: usize,
}

/// Per-step counters and cumulative execution time.
#[derive(Debug, Clone, Copy, PartialEq, Eq, Structural)]
pub struct StepStat {
    /// Records this step processed successfully.
    pub processed: u64,
    /// Records this step filtered out.
    pub filtered: u64,
    /// Failures attributed to this step.
    pub errors: u64,
    /// Cumulative execution time in nanoseconds.
    pub nanos: u64,
}

/// One outcome of a step, as counted in its statistics.
#[derive(Debug, Clone, Copy, PartialEq, Eq, Structural)]
pub enum Tick {
    /// Processed a record, taking `nanos`.
    Processed { nanos: u64 },
    /// Filtered a record out, taking `nanos`.
    Filtered { nanos: u64 },
    /// Failed on a record, taking `nanos`.
    Failed { nanos: u64 },
    /// Failed before running (its condition could not be evaluated).
    Error,
}

/// The statistics after one more outcome.
pub open spec fn ticked(s: StepStat, t: Tick) -> StepStat {
    match t {
        Tick::Processed { nanos } => StepStat { processed: (s.processed + 1) as u64, nanos: (s.nanos + nanos) as u64, ..s },
        Tick::Filtered { nanos } => StepStat { filtered: (s.filtered + 1) as u64, nanos: (s.nanos + nanos) as u64, ..s },
        Tick::Failed { nanos } => StepStat { errors: (s.errors + 1) as u64, nanos: (s.nanos + nanos) as u64, ..s },
        Tick::Error => StepStat { errors: (s.errors + 1) as u64, ..s },
    }
}

/// Whether one more outcome fits the counters.
pub open spec fn tick_fits(s: StepStat, t: Tick) -> bool {
    match t {
        Tick::Processed { nanos } => s.processed < u64::MAX && s.nanos + nanos <= u64::MAX,
        Tick::Filtered { nanos } => s.filtered < u64::MAX && s.nanos + nanos <= u64::MAX,
        Tick::Failed { nanos } => s.errors < u64::MAX && s.nanos + nanos <= u64::MAX,
        Tick::Error => s.errors < u64::MAX,
    }
}

/// The statistics of a step that has seen nothing yet.
pub open spec fn zero_stat() -> StepStat {
    StepStat { processed: 0, filtered: 0, errors: 0, nanos: 0 }
}

impl StepStat {
    /// All counters at zero.
    pub fn zero() -> (r: StepStat)
        ensures
            r == zero_stat(),
    {
        StepStat { processed: 0, filtered: 0, errors: 0, nanos: 0 }
    }

    /// Count one more outcome.
    pub fn tick(&mut self, t: Tick)
        requires
            tick_fits(*old(self), t),
        ensures
            *final(self) == ticked(*old(self), t),
    {
        match t {
            Tick::Processed { nanos } => {
                self.processed = self.processed + 1;
                self.nanos = self.nanos + nanos;
            },
            Tick::Filtered { nanos } => {
                self.filtered = self.filtered + 1;
                self.nanos = self.nanos + nanos;
            },
            Tick::Failed { nanos } => {
                self.errors = self.errors + 1;
                self.nanos = self.nanos + nanos;
            },
            Tick::Error => {
                self.errors = self.errors + 1;
            },
        }
    }
}

/// The statistics of one step, by id.
#[derive(Debug, Clone)]
pub struct StepEntry {
    pub id: String,
    pub stat: StepStat,
}

impl Keyed for StepEntry {
    open spec fn key(&self) -> Seq<char> {
        self.id@
    }

    fn key_str(&self) -> (r: &str) {
        self.id.as_str()
    }
}

/// The statistics of step `id` in a table (zero when it has none).
pub open spec fn stat_of(table: Seq<StepEntry>, id: Seq<char>) -> StepStat {
    match lookup(table, id) {
        Some(e) => e.stat,
        None => zero_stat(),
    }
}

/// Count one more outcome of step `id`, adding the step when it is new.
pub fn tick_step(table: &mut Vec<StepEntry>, id: &str, t: Tick)
    requires
        unique_keys(old(table)@),
        tick_fits(stat_of(old(table)@, id@), t),
    ensures
        unique_keys(final(table)@),
        stat_of(final(table)@, id@) == ticked(stat_of(old(table)@, id@), t),
        has_key(final(table)@, id@),
        forall|k: Seq<char>| k != id@ ==> #[trigger] lookup(final(table)@, k) == lookup(old(table)@, k),
{
    let mut stat = match find_key(table, id) {
        Some(i) => {
            proof {
                lemma_lookup_at(table@, i as int);
            }
            table[i].stat
        },
        None => StepStat::zero(),
    };
    stat.tick(t);
    upsert(table, StepEntry { id: id.to_owned(), stat });
}

/// A complete run summary for history and metrics.
#[derive(Debug)]
pub struct RunReport {
    pub run_id: String,
    pub flow: String,
    pub started_at: String,
    pub stats: StatsSnapshot,
    /// Per-step statistics, one entry per step id.
    pub steps: Vec<StepEntry>,
}

} // verus!
