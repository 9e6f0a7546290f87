//! The bookkeeping of a flow run: counters, per-step statistics, step
//! states and their checkpoints, delivery markers, approval queues and the
//! pause gate.

use vstd::prelude::*;

use crate::clock::{now_rfc3339, utc_timestamp};
use crate::json::{Json, JsonView};
use crate::keyed::unique_keys;
use crate::persistence::MemoryStore;
use crate::runtime::buffers::{fresh_buffers, scan_nodes, NodeScan};
use crate::runtime::control::{
    foreach_children, foreach_field, foreach_items, batch_offered, batch_record, batch_view, correlation_of, join_offered, merge_records, merge_views, payloads, BatchBuffer,
};
use crate::runtime::node::ErrorPolicy;
use crate::runtime::observe::{ErrorEvent, ErrorRing, ERROR_RING_CAP};
use crate::runtime::control::{failure_action, failure_choice, FailureAction};
use crate::runtime::record::{meta_value, set_field};
use crate::runtime::stats::StepStat;
use crate::runtime::routes::Route;
use crate::runtime::walker::{gate, gate_of, routes_taken, taken, walk_action, Gate, WalkAction};
use crate::runtime::warnings::node_index;
use crate::script::TransformOutcome;
use crate::order::{sort_by_key, sorted_by_key};
use crate::text::str_eq;
use crate::runtime::graph::FlowGraph;
use crate::runtime::node::{distinct_ids, ControlNode, Node, NodeStep};
use crate::runtime::pause::PauseGate;
use crate::runtime::persist::{
    approve_key, park, parked_view, unpark, declared_states, delivered_key, delivery_id, initial_states, restored_state, resolve_run_id, run_id_key,
    state_key,
};
use crate::runtime::record::Record;
use crate::runtime::stats::{stat_of, tick_fits, tick_step, ticked, RunReport, StatsSnapshot, StepEntry, Tick};

verus! {

/// Options of a run.
pub struct ExecutorConfig {
    /// Where step states, checkpoints, delivery markers and approval queues
    /// are kept.
    pub store: Option<MemoryStore>,
    /// Continue the stored run instead of starting a new one.
    pub resume: bool,
    /// Checkpoint the step states after this many deliveries.
    pub checkpoint_every: Option<u64>,
    /// The pause gate of a served flow.
    pub pause: Option<PauseGate>,
}

impl Default for ExecutorConfig {
    fn default() -> (r: ExecutorConfig)
        ensures
            r.store is None,
            !r.resume,
            r.checkpoint_every is None,
            r.pause is None,
    {
        ExecutorConfig { store: None, resume: false, checkpoint_every: None, pause: None }
    }
}

/// The run counter an event counts in.
#[derive(Debug, Clone, Copy, PartialEq, Eq, Structural)]
pub enum Counter {
    Processed,
    Filtered,
    Errors,
    Waiting,
    Duplicates,
}

/// A counter after one more event (wrapping around at the top).
pub open spec fn bumped(n: usize) -> usize {
    if n == usize::MAX {
        0
    } else {
        (n + 1) as usize
    }
}

/// The counters after one more event of kind `c`.
pub open spec fn counted(s: StatsSnapshot, c: Counter) -> StatsSnapshot {
    match c {
        Counter::Processed => StatsSnapshot { processed: bumped(s.processed), ..s },
        Counter::Filtered => StatsSnapshot { filtered: bumped(s.filtered), ..s },
        Counter::Errors => StatsSnapshot { errors: bumped(s.errors), ..s },
        Counter::Waiting => StatsSnapshot { waiting: bumped(s.waiting), ..s },
        Counter::Duplicates => StatsSnapshot { duplicates: bumped(s.duplicates), ..s },
    }
}

/// All counters at zero.
pub open spec fn zero_stats() -> StatsSnapshot {
    StatsSnapshot { processed: 0, filtered: 0, errors: 0, waiting: 0, duplicates: 0 }
}

/// The key step `id`'s state is stored under in run `run`.
pub open spec fn state_store_key(run: Seq<char>, id: Seq<char>) -> Seq<char> {
    run + ":state:"@ + id
}

/// The states a run starts with, in step order.
pub open spec fn state_entries(
    nodes: Seq<Node>,
    run: Seq<char>,
    resume: bool,
    store: Option<Map<Seq<char>, JsonView>>,
) -> Seq<(Seq<char>, JsonView)> {
    declared_states(nodes).map_values(
        |p: (Seq<char>, JsonView)| (p.0, restored_state(p.1, state_store_key(run, p.0), resume, store)),
    )
}

/// The map made by setting each entry in order (a later entry for the same
/// key wins).
pub open spec fn entries_map(s: Seq<(Seq<char>, JsonView)>) -> Map<Seq<char>, JsonView>
    decreases s.len(),
{
    if s.len() == 0 {
        Map::empty()
    } else {
        entries_map(s.drop_last()).insert(s.last().0, s.last().1)
    }
}

/// The contents of an optional store.
pub open spec fn opt_store(store: Option<MemoryStore>) -> Option<Map<Seq<char>, JsonView>> {
    match store {
        Some(s) => Some(s@),
        None => None,
    }
}

/// Whether a record was delivered in run `run`, given the store's contents.
pub open spec fn delivered_in(stored: Option<Map<Seq<char>, JsonView>>, run: Seq<char>, record: Record, payload_hash: u64) -> bool {
    match stored {
        Some(m) => m.contains_key(run + ":delivered:"@ + delivery_id(record, payload_hash)),
        None => false,
    }
}

/// The wrapping successor of a count.
pub open spec fn next_count(n: u64) -> u64 {
    if n == u64::MAX {
        0
    } else {
        (n + 1) as u64
    }
}

/// Key `k` is where the state of some step of `states` is stored in run `run`.
pub open spec fn is_state_key(run: Seq<char>, states: Map<Seq<char>, JsonView>, k: Seq<char>) -> bool {
    exists|id: Seq<char>| #[trigger] states.contains_key(id) && k == state_store_key(run, id)
}

/// `after` is `before` with every state of `states` stored under its key
/// for run `run`.
pub open spec fn checkpointed(
    before: Map<Seq<char>, JsonView>,
    after: Map<Seq<char>, JsonView>,
    run: Seq<char>,
    states: Map<Seq<char>, JsonView>,
) -> bool {
    &&& forall|id: Seq<char>|
        #[trigger] states.contains_key(id) ==> after.contains_key(state_store_key(run, id)) && after[state_store_key(
            run,
            id,
        )] == states[id]
    &&& forall|k: Seq<char>| !is_state_key(run, states, k) ==> #[trigger] after.contains_key(k) == before.contains_key(k)
    &&& forall|k: Seq<char>| !is_state_key(run, states, k) && before.contains_key(k) ==> #[trigger] after[k] == before[k]
}

/// Distinct steps have distinct state keys.
pub proof fn lemma_state_key_injective(run: Seq<char>, a: Seq<char>, b: Seq<char>)
    requires
        state_store_key(run, a) == state_store_key(run, b),
    ensures
        a == b,
{
    lemma_prefix_cancel(run + ":state:"@, a, b);
}

/// What a store holds under `k`.
pub open spec fn stored_at(m: Map<Seq<char>, JsonView>, k: Seq<char>) -> Option<JsonView> {
    if m.contains_key(k) {
        Some(m[k])
    } else {
        None
    }
}

/// Position `i` holds the first buffer of node `id`.
pub open spec fn first_buffer_at<B>(buffers: Seq<(String, B)>, id: Seq<char>, i: int) -> bool {
    &&& 0 <= i < buffers.len()
    &&& buffers[i].0@ == id
    &&& forall|j: int| 0 <= j < i ==> (#[trigger] buffers[j]).0@ != id
}

/// Some buffer belongs to node `id`.
pub open spec fn has_buffer<B>(buffers: Seq<(String, B)>, id: Seq<char>) -> bool {
    exists|i: int| 0 <= i < buffers.len() && (#[trigger] buffers[i]).0@ == id
}

/// `c` is the correlation id a `join` files `record` under: its
/// `correlation` metadata, else a fresh random id.
pub open spec fn correlation_for(record: Record, c: Seq<char>) -> bool {
    match meta_value(record.metadata@, "correlation"@) {
        Some(v) => c == v@,
        None => c.len() == 36,
    }
}

/// `merged` is what a released `join` group is routed on as.
pub open spec fn merged_group(merged: Record, group: Seq<Record>) -> bool {
    &&& group.len() > 0
    &&& merged.payload@ == merge_views(group[0].payload@, payloads(group.drop_first()))
    &&& merged.metadata == group[0].metadata
    &&& merged.id == group[0].id
    &&& merged.timestamp == group[0].timestamp
}

/// The batches a flush at the end of the input emits, in buffer order: one
/// `{ items }` payload per buffer that holds records.
pub open spec fn flushed_batches(batches: Seq<(String, BatchBuffer)>) -> Seq<(Seq<char>, JsonView)>
    decreases batches.len(),
{
    if batches.len() == 0 {
        Seq::empty()
    } else {
        let rest = flushed_batches(batches.drop_last());
        let (id, buffer) = batches.last();
        if buffer.records@.len() > 0 {
            rest.push((id@, batch_view(buffer.records@)))
        } else {
            rest
        }
    }
}

/// The contents of an optional list of records.
pub open spec fn records_view(o: Option<Vec<Record>>) -> Option<Seq<Record>> {
    match o {
        Some(v) => Some(v@),
        None => None,
    }
}

/// Step statistics with room for one more outcome taking `nanos`.
pub open spec fn has_room(s: StepStat, nanos: u64) -> bool {
    &&& s.processed < u64::MAX
    &&& s.filtered < u64::MAX
    &&& s.errors < u64::MAX
    &&& s.nanos + nanos <= u64::MAX
}

/// What follows a transform's outcome.
#[derive(Debug)]
pub enum TransformNext {
    /// Route these records on from the node, in order.
    Route(Vec<Record>),
    /// Wait `backoff_millis`, then run attempt number `attempt`.
    Retry { attempt: u32, backoff_millis: u64 },
    /// Drop the record (filtered, or failed under `continue`).
    Drop,
    /// Stop the run with this error.
    Abort(String),
}

/// The ids of the `approve` steps among `nodes` whose queues are released
/// (every one when no step is named, else the named one), in order.
pub open spec fn approve_ids(nodes: Seq<Node>, step: Option<Seq<char>>) -> Seq<Seq<char>>
    decreases nodes.len(),
{
    if nodes.len() == 0 {
        Seq::empty()
    } else {
        let rest = approve_ids(nodes.drop_last(), step);
        let n = nodes.last();
        let selected = match step {
            None => true,
            Some(f) => f == n.id@,
        };
        if (n.step matches NodeStep::Control(ControlNode::Approve { .. })) && selected {
            rest.push(n.id@)
        } else {
            rest
        }
    }
}

/// The key of step `id`'s approval queue in flow `flow`.
pub open spec fn approve_store_key(flow: Seq<char>, id: Seq<char>) -> Seq<char> {
    flow + ":approve:"@ + id
}

/// Two strings with a common prefix are equal when the whole strings are.
pub proof fn lemma_prefix_cancel(p: Seq<char>, a: Seq<char>, b: Seq<char>)
    requires
        p + a == p + b,
    ensures
        a == b,
{
    assert(a =~= (p + a).subrange(p.len() as int, (p + a).len() as int));
    assert(b =~= (p + b).subrange(p.len() as int, (p + b).len() as int));
}

/// The released ids are distinct ids of nodes.
pub proof fn lemma_approve_ids(nodes: Seq<Node>, step: Option<Seq<char>>)
    requires
        distinct_ids(nodes),
    ensures
        forall|a: int, b: int|
            0 <= a < approve_ids(nodes, step).len() && 0 <= b < approve_ids(nodes, step).len() && a != b
                ==> #[trigger] approve_ids(nodes, step)[a] != #[trigger] approve_ids(nodes, step)[b],
        forall|a: int|
            0 <= a < approve_ids(nodes, step).len() ==> exists|i: int| 0 <= i < nodes.len() && nodes[i].id@ == #[trigger] approve_ids(nodes, step)[a],
    decreases nodes.len(),
{
    if nodes.len() > 0 {
        let t = nodes.drop_last();
        assert(distinct_ids(t)) by {
            assert forall|i: int, j: int| 0 <= i < t.len() && 0 <= j < t.len() && i != j implies #[trigger] t[i].id@ != #[trigger] t[j].id@ by {
                assert(nodes[i].id@ != nodes[j].id@);
            }
        }
        lemma_approve_ids(t, step);
        let rest = approve_ids(t, step);
        let all = approve_ids(nodes, step);
        let last = nodes.len() - 1;
        assert forall|a: int| 0 <= a < rest.len() implies #[trigger] rest[a] != nodes[last].id@ by {
            let i = choose|i: int| 0 <= i < t.len() && t[i].id@ == rest[a];
            assert(nodes[i].id@ != nodes[last].id@);
        }
        assert forall|a: int| 0 <= a < all.len() implies exists|i: int| 0 <= i < nodes.len() && nodes[i].id@ == #[trigger] all[a] by {
            if a < rest.len() {
                let i = choose|i: int| 0 <= i < t.len() && t[i].id@ == rest[a];
                assert(nodes[i].id@ == all[a]);
            } else {
                assert(nodes[last].id@ == all[a]);
            }
        }
    }
}

/// The number of routes whose condition could not be evaluated
/// (`verdicts[i]` is the value of route `i`'s condition, `None` when
/// evaluating it failed).
pub open spec fn failed_conditions(routes: Seq<Route>, verdicts: Seq<Option<bool>>) -> nat
    decreases routes.len(),
{
    if routes.len() == 0 {
        0
    } else {
        let k = routes.len() - 1;
        failed_conditions(routes.drop_last(), verdicts) + if routes[k].when is Some && k < verdicts.len()
            && verdicts[k] is None {
            1nat
        } else {
            0nat
        }
    }
}

/// A counter after `k` more events (wrapping around at the top).
pub open spec fn bumped_by(n: usize, k: nat) -> usize
    decreases k,
{
    if k == 0 {
        n
    } else {
        bumped(bumped_by(n, (k - 1) as nat))
    }
}

/// What a walk does with a record arriving at a node.
#[derive(Debug, Clone, Copy, PartialEq, Eq, Structural)]
pub enum WalkPlan {
    /// Drop the record: the node is unknown, its condition did not hold or
    /// failed (counted as an error), or the sink already has it (counted as
    /// a duplicate).
    Drop,
    /// Send the record to the sink.
    Deliver,
    /// Run the transform.
    Transform,
    /// Apply the control node.
    Control,
    /// Route the record on (a source).
    Route,
}

/// `after` is the error log `before` with one more event, about step
/// `step`, of kind `kind`, with `message` (the oldest event is dropped when
/// the log is full).
pub open spec fn error_recorded(before: Seq<ErrorEvent>, after: Seq<ErrorEvent>, step: Seq<char>, kind: Seq<char>, message: String) -> bool {
    &&& after == (if before.len() >= ERROR_RING_CAP {
        before.drop_first()
    } else {
        before
    }).push(after.last())
    &&& after.last().step@ == step
    &&& after.last().kind@ == kind
    &&& after.last().message == message
}

/// The bookkeeping of one run of a flow graph.
pub struct Executor {
    graph: FlowGraph,
    buffers: NodeScan,
    counters: StatsSnapshot,
    steps: Vec<StepEntry>,
    started_at: String,
    pause: Option<PauseGate>,
    store: Option<MemoryStore>,
    run_id: String,
    flow_name: String,
    checkpoint_every: Option<u64>,
    since_checkpoint: u64,
    states: MemoryStore,
    errors: ErrorRing,
}

impl Executor {
    /// The executor's invariant: its tables are keyed uniquely.
    pub closed spec fn wf(&self) -> bool {
        &&& self.states.wf()
        &&& (self.store matches Some(s) ==> s.wf())
        &&& unique_keys(self.steps@)
        &&& forall|i: int| 0 <= i < self.buffers.joins@.len() ==> (#[trigger] self.buffers.joins@[i]).1.wf()
        &&& self.errors.log().len() <= ERROR_RING_CAP
        &&& utc_timestamp(self.started_at@)
    }

    /// The recorded error events, oldest first.
    pub closed spec fn error_log(&self) -> Seq<ErrorEvent> {
        self.errors.log()
    }

    /// The graph being run.
    pub closed spec fn graph_view(&self) -> FlowGraph {
        self.graph
    }

    /// The run counters.
    pub closed spec fn stats(&self) -> StatsSnapshot {
        self.counters
    }

    /// The per-step statistics.
    pub closed spec fn step_table(&self) -> Seq<StepEntry> {
        self.steps@
    }

    /// The run id.
    pub closed spec fn run(&self) -> Seq<char> {
        self.run_id@
    }

    /// The flow's name.
    pub closed spec fn flow(&self) -> Seq<char> {
        self.flow_name@
    }

    /// When the run started (RFC 3339).
    pub closed spec fn started(&self) -> Seq<char> {
        self.started_at@
    }

    /// The accumulated state of each step that keeps one.
    pub closed spec fn states_view(&self) -> Map<Seq<char>, JsonView> {
        self.states@
    }

    /// The store's contents, when there is a store.
    pub closed spec fn stored(&self) -> Option<Map<Seq<char>, JsonView>> {
        opt_store(self.store)
    }

    /// The pause gate's state, when there is a gate.
    pub closed spec fn gate(&self) -> Option<bool> {
        match self.pause {
            Some(g) => Some(g.is_closed()),
            None => None,
        }
    }

    /// Deliveries since the last checkpoint.
    pub closed spec fn since(&self) -> u64 {
        self.since_checkpoint
    }

    /// The checkpoint interval.
    pub closed spec fn every(&self) -> Option<u64> {
        self.checkpoint_every
    }

    /// The per-node buffers.
    pub closed spec fn buffers_view(&self) -> NodeScan {
        self.buffers
    }

    /// `other` has the same graph, run and settings.
    pub open spec fn same_run_except_buffers(&self, other: &Executor) -> bool {
        &&& other.error_log() == self.error_log()
        &&& other.graph_view() == self.graph_view()
        &&& other.run() == self.run()
        &&& other.flow() == self.flow()
        &&& other.started() == self.started()
        &&& other.every() == self.every()
    }

    /// `other` has the same graph, run, buffers and settings, and the same
    /// error events.
    pub open spec fn same_run(&self, other: &Executor) -> bool {
        &&& other.error_log() == self.error_log()
        &&& other.same_run_but_errors(self)
    }

    /// `other` has the same graph, run, buffers and settings.
    pub open spec fn same_run_but_errors(&self, other: &Executor) -> bool {
        &&& other.graph_view() == self.graph_view()
        &&& other.buffers_view() == self.buffers_view()
        &&& other.run() == self.run()
        &&& other.flow() == self.flow()
        &&& other.started() == self.started()
        &&& other.every() == self.every()
    }

    /// Prepare a run of `graph`: empty buffers, zero counters, the run id
    /// (the stored one when resuming, else a fresh one, which is stored),
    /// and the initial state of each step that keeps one.
    pub fn new(graph: FlowGraph, config: ExecutorConfig) -> (r: Executor)
        requires
            config.store matches Some(s) ==> s.wf(),
        ensures
            r.wf(),
            r.graph_view() == graph,
            fresh_buffers(r.buffers_view(), graph.nodes@),
            r.stats() == zero_stats(),
            r.step_table().len() == 0,
            r.error_log().len() == 0,
            r.flow() == graph.name@,
            utc_timestamp(r.started()),
            r.every() == config.checkpoint_every,
            r.since() == 0,
            r.gate() == match config.pause {
                Some(g) => Some(g.is_closed()),
                None => None,
            },
            ({
                let key = graph.name@ + ":run_id"@;
                match config.store {
                    Some(s) => if config.resume && s@.contains_key(key) && s@[key] is Str {
                        &&& JsonView::Str(r.run()) == s@[key]
                        &&& r.stored() == Some(s@)
                    } else {
                        &&& r.run().len() == 36
                        &&& r.stored() == Some(s@.insert(key, JsonView::Str(r.run())))
                    },
                    None => r.run().len() == 36 && r.stored() is None,
                }
            }),
            r.states_view() == entries_map(state_entries(graph.nodes@, r.run(), config.resume, r.stored())),
    {
        let buffers = scan_nodes(&graph);
        let flow_name = graph.name.clone();
        let mut store = config.store;
        let key = run_id_key(flow_name.as_str());
        let stored = match &store {
            Some(s) => if config.resume {
                s.load(key.as_str())
            } else {
                None
            },
            None => None,
        };
        let (run_id, fresh) = resolve_run_id(config.resume, stored);
        if fresh {
            match &mut store {
                Some(s) => {
                    s.save(key.as_str(), Json::Str(run_id.clone()));
                },
                None => {},
            }
        }
        let initial = initial_states(&graph, run_id.as_str(), config.resume, store.as_ref());
        let ghost entries = state_entries(graph.nodes@, run_id@, config.resume, opt_store(store));
        let mut states = MemoryStore::new();
        let mut i: usize = 0;
        while i < initial.len()
            invariant
                i <= initial@.len(),
                initial@.len() == entries.len(),
                entries == state_entries(graph.nodes@, run_id@, config.resume, opt_store(store)),
                forall|k: int| 0 <= k < initial@.len() ==> (#[trigger] initial@[k]).0@ == entries[k].0 && initial@[k].1@ == entries[k].1,
                states.wf(),
                states@ == entries_map(entries.subrange(0, i as int)),
            decreases initial.len() - i,
        {
            states.save(initial[i].0.as_str(), initial[i].1.duplicate());
            assert(entries.subrange(0, i + 1).drop_last() =~= entries.subrange(0, i as int));
            i = i + 1;
        }
        assert(entries.subrange(0, entries.len() as int) =~= entries);
        Executor {
            graph,
            buffers,
            counters: StatsSnapshot { processed: 0, filtered: 0, errors: 0, waiting: 0, duplicates: 0 },
            steps: Vec::new(),
            started_at: now_rfc3339(),
            pause: config.pause,
            store,
            run_id,
            flow_name,
            checkpoint_every: config.checkpoint_every,
            since_checkpoint: 0,
            states,
            errors: ErrorRing::new(),
        }
    }

    /// The run counters.
    pub fn snapshot(&self) -> (r: StatsSnapshot)
        ensures
            r == self.stats(),
    {
        self.counters
    }

    /// The run id.
    pub fn run_id(&self) -> (r: &str)
        ensures
            r@ == self.run(),
    {
        self.run_id.as_str()
    }

    /// The flow's name.
    pub fn flow_name(&self) -> (r: &str)
        ensures
            r@ == self.flow(),
    {
        self.flow_name.as_str()
    }

    /// The graph being run.
    pub fn graph(&self) -> (r: &FlowGraph)
        ensures
            *r == self.graph_view(),
    {
        &self.graph
    }

    /// The per-node buffers.
    pub fn buffers(&self) -> (r: &NodeScan)
        ensures
            *r == self.buffers_view(),
    {
        &self.buffers
    }

    /// The full run report: ids, start time, counters and per-step
    /// statistics, ordered by step id.
    pub fn report(&self) -> (r: RunReport)
        ensures
            r.run_id@ == self.run(),
            r.flow@ == self.flow(),
            r.started_at@ == self.started(),
            self.wf() ==> utc_timestamp(r.started_at@),
            r.stats == self.stats(),
            r.steps@.to_multiset() == self.step_table().to_multiset(),
            r.steps@.len() == self.step_table().len(),
            sorted_by_key(r.steps@),
    {
        let mut steps: Vec<StepEntry> = Vec::new();
        let mut i: usize = 0;
        while i < self.steps.len()
            invariant
                i <= self.steps@.len(),
                steps@ == self.steps@.subrange(0, i as int),
            decreases self.steps.len() - i,
        {
            steps.push(StepEntry { id: self.steps[i].id.clone(), stat: self.steps[i].stat });
            assert(steps@ =~= self.steps@.subrange(0, i + 1));
            i = i + 1;
        }
        assert(self.steps@.subrange(0, self.steps@.len() as int) =~= self.steps@);
        let steps = sort_by_key(steps);
        RunReport {
            run_id: self.run_id.clone(),
            flow: self.flow_name.clone(),
            started_at: self.started_at.clone(),
            stats: self.counters,
            steps,
        }
    }

    /// The statistics of step `id` so far.
    pub fn step_stat(&self, id: &str) -> (r: crate::runtime::stats::StepStat)
        requires
            self.wf(),
        ensures
            r == stat_of(self.step_table(), id@),
    {
        match crate::keyed::find_key(&self.steps, id) {
            Some(i) => {
                proof {
                    crate::keyed::lemma_lookup_at(self.steps@, i as int);
                }
                self.steps[i].stat
            },
            None => crate::runtime::stats::StepStat::zero(),
        }
    }

    /// Pause intake; in-flight records drain.
    pub fn pause(&mut self)
        requires
            old(self).wf(),
        ensures
            final(self).wf(),
            old(self).same_run(final(self)),
            final(self).stats() == old(self).stats(),
            final(self).step_table() == old(self).step_table(),
            final(self).states_view() == old(self).states_view(),
            final(self).stored() == old(self).stored(),
            final(self).since() == old(self).since(),
            final(self).gate() == match old(self).gate() {
                Some(_) => Some(true),
                None => None,
            },
    {
        match self.pause.take() {
            Some(mut g) => {
                let _ = g.set_paused(true);
                self.pause = Some(g);
            },
            None => {},
        }
    }

    /// Resume intake; returns whether waiters are to be woken.
    pub fn resume(&mut self) -> (wake: bool)
        requires
            old(self).wf(),
        ensures
            final(self).wf(),
            old(self).same_run(final(self)),
            final(self).stats() == old(self).stats(),
            final(self).step_table() == old(self).step_table(),
            final(self).states_view() == old(self).states_view(),
            final(self).stored() == old(self).stored(),
            final(self).since() == old(self).since(),
            final(self).gate() == match old(self).gate() {
                Some(_) => Some(false),
                None => None,
            },
            wake == old(self).gate() is Some,
    {
        match self.pause.take() {
            Some(mut g) => {
                let wake = g.set_paused(false);
                self.pause = Some(g);
                wake
            },
            None => false,
        }
    }

    /// Whether intake is paused.
    pub fn is_paused(&self) -> (r: bool)
        ensures
            r == (self.gate() == Some(true)),
    {
        match &self.pause {
            Some(g) => g.paused(),
            None => false,
        }
    }

    /// Count one more event of kind `c`.
    pub fn count(&mut self, c: Counter)
        requires
            old(self).wf(),
        ensures
            final(self).wf(),
            old(self).same_run(final(self)),
            final(self).stats() == counted(old(self).stats(), c),
            final(self).step_table() == old(self).step_table(),
            final(self).states_view() == old(self).states_view(),
            final(self).stored() == old(self).stored(),
            final(self).since() == old(self).since(),
            final(self).gate() == old(self).gate(),
    {
        let s = self.counters;
        self.counters = match c {
            Counter::Processed => StatsSnapshot { processed: if s.processed == usize::MAX { 0 } else { s.processed + 1 }, ..s },
            Counter::Filtered => StatsSnapshot { filtered: if s.filtered == usize::MAX { 0 } else { s.filtered + 1 }, ..s },
            Counter::Errors => StatsSnapshot { errors: if s.errors == usize::MAX { 0 } else { s.errors + 1 }, ..s },
            Counter::Waiting => StatsSnapshot { waiting: if s.waiting == usize::MAX { 0 } else { s.waiting + 1 }, ..s },
            Counter::Duplicates => StatsSnapshot { duplicates: if s.duplicates == usize::MAX { 0 } else { s.duplicates + 1 }, ..s },
        };
    }

    /// Count one more outcome of step `id` in its statistics.
    pub fn tick(&mut self, id: &str, t: Tick)
        requires
            old(self).wf(),
            tick_fits(stat_of(old(self).step_table(), id@), t),
        ensures
            final(self).wf(),
            old(self).same_run(final(self)),
            final(self).stats() == old(self).stats(),
            stat_of(final(self).step_table(), id@) == ticked(stat_of(old(self).step_table(), id@), t),
            forall|k: Seq<char>| k != id@ ==> #[trigger] stat_of(final(self).step_table(), k) == stat_of(old(self).step_table(), k),
            final(self).states_view() == old(self).states_view(),
            final(self).stored() == old(self).stored(),
            final(self).since() == old(self).since(),
            final(self).gate() == old(self).gate(),
    {
        tick_step(&mut self.steps, id, t);
    }

    /// The accumulated state of step `id` (an empty object when it keeps none).
    pub fn state_value(&self, id: &str) -> (r: Json)
        requires
            self.wf(),
        ensures
            r@ == if self.states_view().contains_key(id@) {
                self.states_view()[id@]
            } else {
                JsonView::Object(Seq::empty())
            },
    {
        match self.states.load(id) {
            Some(v) => v,
            None => {
                let r = Json::Object(Vec::new());
                proof {
                    crate::json::lemma_members_view(Seq::<(String, Json)>::empty());
                }
                r
            },
        }
    }

    /// The value step `id`'s expressions evaluate against: `{ record, state }`
    /// when the step keeps a state, otherwise the payload.
    pub fn eval_value(&self, id: &str, payload: &Json) -> (r: Json)
        requires
            self.wf(),
        ensures
            r@ == crate::runtime::persist::eval_view(payload@, if self.states_view().contains_key(id@) {
                Some(self.states_view()[id@])
            } else {
                None
            }),
    {
        let state = self.states.load(id);
        match state {
            Some(s) => crate::runtime::persist::eval_value(payload, Some(&s)),
            None => crate::runtime::persist::eval_value(payload, None),
        }
    }

    /// Set step `id`'s accumulated state and store it at once.
    pub fn update_state(&mut self, id: &str, value: Json)
        requires
            old(self).wf(),
        ensures
            final(self).wf(),
            old(self).same_run(final(self)),
            final(self).stats() == old(self).stats(),
            final(self).step_table() == old(self).step_table(),
            final(self).states_view() == old(self).states_view().insert(id@, value@),
            final(self).stored() == match old(self).stored() {
                Some(m) => Some(m.insert(state_store_key(old(self).run(), id@), value@)),
                None => None,
            },
            final(self).since() == old(self).since(),
            final(self).gate() == old(self).gate(),
    {
        match self.store.take() {
            Some(mut s) => {
                let key = state_key(self.run_id.as_str(), id);
                s.save(key.as_str(), value.duplicate());
                self.store = Some(s);
            },
            None => {},
        }
        self.states.save(id, value);
    }

    /// Store every accumulated state and restart the checkpoint count;
    /// without a store nothing happens.
    pub fn checkpoint(&mut self)
        requires
            old(self).wf(),
        ensures
            final(self).wf(),
            old(self).same_run(final(self)),
            final(self).stats() == old(self).stats(),
            final(self).step_table() == old(self).step_table(),
            final(self).states_view() == old(self).states_view(),
            final(self).gate() == old(self).gate(),
            match old(self).stored() {
                Some(before) => {
                    &&& final(self).stored() matches Some(after) && checkpointed(
                        before,
                        after,
                        old(self).run(),
                        old(self).states_view(),
                    )
                    &&& final(self).since() == 0
                },
                None => final(self).stored() is None && final(self).since() == old(self).since(),
            },
    {
        match self.store.take() {
            Some(mut s) => {
                let ghost before = s@;
                let ghost run = self.run_id@;
                let ghost states = self.states@;
                let entries = self.states.entries();
                let mut i: usize = 0;
                while i < entries.len()
                    invariant
                        i <= entries@.len(),
                        s.wf(),
                        run == self.run_id@,
                        states == self.states@,
                        forall|q: int|
                            0 <= q < entries@.len() ==> states.contains_key((#[trigger] entries@[q]).0@)
                                && entries@[q].1@ == states[entries@[q].0@],
                        forall|q: int|
                            0 <= q < i ==> s@.contains_key(state_store_key(run, (#[trigger] entries@[q]).0@))
                                && s@[state_store_key(run, entries@[q].0@)] == states[entries@[q].0@],
                        forall|k: Seq<char>| !is_state_key(run, states, k) ==> #[trigger] s@.contains_key(k) == before.contains_key(k),
                        forall|k: Seq<char>| !is_state_key(run, states, k) && before.contains_key(k) ==> #[trigger] s@[k] == before[k],
                    decreases entries.len() - i,
                {
                    let key = state_key(self.run_id.as_str(), entries[i].0.as_str());
                    let ghost id = entries@[i as int].0@;
                    let ghost old_s = s@;
                    s.save(key.as_str(), entries[i].1.duplicate());
                    proof {
                        assert(key@ == state_store_key(run, id));
                        assert forall|q: int| 0 <= q < i + 1 implies s@.contains_key(state_store_key(run, (#[trigger] entries@[q]).0@))
                            && s@[state_store_key(run, entries@[q].0@)] == states[entries@[q].0@] by {
                            if state_store_key(run, entries@[q].0@) == key@ {
                                lemma_state_key_injective(run, entries@[q].0@, id);
                            }
                        }
                        assert forall|k: Seq<char>| !is_state_key(run, states, k) implies #[trigger] s@.contains_key(k) == before.contains_key(k) by {
                            assert(states.contains_key(id));
                            assert(k != key@);
                        }
                        assert forall|k: Seq<char>| !is_state_key(run, states, k) && before.contains_key(k) implies #[trigger] s@[k] == before[k] by {
                            assert(states.contains_key(id));
                            assert(k != key@);
                        }
                    }
                    i = i + 1;
                }
                proof {
                    assert forall|id: Seq<char>| #[trigger] states.contains_key(id) implies s@.contains_key(state_store_key(run, id))
                        && s@[state_store_key(run, id)] == states[id] by {
                        let q = choose|q: int| 0 <= q < entries@.len() && entries@[q].0@ == id;
                        assert(entries@[q].0@ == id);
                    }
                }
                self.store = Some(s);
                self.since_checkpoint = 0;
            },
            None => {},
        }
    }

    /// Count one delivery towards the next checkpoint, and checkpoint when
    /// the count reaches the interval.
    pub fn maybe_checkpoint(&mut self)
        requires
            old(self).wf(),
        ensures
            final(self).wf(),
            old(self).same_run(final(self)),
            final(self).stats() == old(self).stats(),
            final(self).step_table() == old(self).step_table(),
            final(self).states_view() == old(self).states_view(),
            final(self).gate() == old(self).gate(),
            match old(self).every() {
                None => final(self).stored() == old(self).stored() && final(self).since() == old(self).since(),
                Some(e) => {
                    let since = next_count(old(self).since());
                    if since >= e {
                        match old(self).stored() {
                            Some(before) => {
                                &&& final(self).stored() matches Some(after) && checkpointed(
                                    before,
                                    after,
                                    old(self).run(),
                                    old(self).states_view(),
                                )
                                &&& final(self).since() == 0
                            },
                            None => final(self).stored() is None && final(self).since() == since,
                        }
                    } else {
                        final(self).stored() == old(self).stored() && final(self).since() == since
                    }
                },
            },
    {
        match self.checkpoint_every {
            None => {},
            Some(e) => {
                let since = if self.since_checkpoint == u64::MAX {
                    0
                } else {
                    self.since_checkpoint + 1
                };
                self.since_checkpoint = since;
                if since >= e {
                    self.checkpoint();
                }
            },
        }
    }

    /// Whether a record was delivered before in this run; `payload_hash`
    /// is the hash of its payload's serialized text.
    pub fn is_delivered(&self, record: &Record, payload_hash: u64) -> (r: bool)
        requires
            self.wf(),
        ensures
            r == delivered_in(self.stored(), self.run(), *record, payload_hash),
    {
        match &self.store {
            Some(s) => {
                let key = delivered_key(self.run_id.as_str(), record, payload_hash);
                s.load(key.as_str()).is_some()
            },
            None => false,
        }
    }

    /// Mark a record as delivered in this run.
    pub fn mark_delivered(&mut self, record: &Record, payload_hash: u64)
        requires
            old(self).wf(),
        ensures
            final(self).wf(),
            old(self).same_run(final(self)),
            final(self).stats() == old(self).stats(),
            final(self).step_table() == old(self).step_table(),
            final(self).states_view() == old(self).states_view(),
            final(self).since() == old(self).since(),
            final(self).gate() == old(self).gate(),
            final(self).stored() == match old(self).stored() {
                Some(m) => Some(m.insert(old(self).run() + ":delivered:"@ + delivery_id(*record, payload_hash), JsonView::Bool(true))),
                None => None,
            },
    {
        match self.store.take() {
            Some(mut s) => {
                let key = delivered_key(self.run_id.as_str(), record, payload_hash);
                s.save(key.as_str(), Json::Bool(true));
                self.store = Some(s);
            },
            None => {},
        }
    }

    /// Park a record in the approval queue of step `node_id` (kept in the
    /// store; without a store nothing is kept).
    pub fn park_approve(&mut self, node_id: &str, record: &Record)
        requires
            old(self).wf(),
        ensures
            final(self).wf(),
            old(self).same_run(final(self)),
            final(self).stats() == old(self).stats(),
            final(self).step_table() == old(self).step_table(),
            final(self).states_view() == old(self).states_view(),
            final(self).since() == old(self).since(),
            final(self).gate() == old(self).gate(),
            final(self).stored() == match old(self).stored() {
                Some(m) => {
                    let key = old(self).flow() + ":approve:"@ + node_id@;
                    Some(m.insert(key, JsonView::Array(parked_view(stored_at(m, key)).push(record.payload@))))
                },
                None => None,
            },
    {
        match self.store.take() {
            Some(mut s) => {
                let key = approve_key(self.flow_name.as_str(), node_id);
                let stored = s.load(key.as_str());
                let queue = park(stored, record.payload.duplicate());
                s.save(key.as_str(), queue);
                self.store = Some(s);
            },
            None => {},
        }
    }

    /// Take every record parked in the approval queue of step `node_id`,
    /// in parking order, and clear the queue.
    pub fn take_approve_queue(&mut self, node_id: &str) -> (r: Vec<Record>)
        requires
            old(self).wf(),
        ensures
            final(self).wf(),
            old(self).same_run(final(self)),
            final(self).stats() == old(self).stats(),
            final(self).step_table() == old(self).step_table(),
            final(self).states_view() == old(self).states_view(),
            final(self).since() == old(self).since(),
            final(self).gate() == old(self).gate(),
            match old(self).stored() {
                Some(m) => {
                    let key = old(self).flow() + ":approve:"@ + node_id@;
                    &&& final(self).stored() == Some(m.remove(key))
                    &&& r@.len() == parked_view(stored_at(m, key)).len()
                    &&& forall|i: int|
                        0 <= i < r@.len() ==> (#[trigger] r@[i]).payload@ == parked_view(stored_at(m, key))[i]
                            && r@[i].metadata@.len() == 0
                },
                None => final(self).stored() is None && r@.len() == 0,
            },
    {
        match self.store.take() {
            Some(mut s) => {
                let key = approve_key(self.flow_name.as_str(), node_id);
                let stored = s.load(key.as_str());
                let records = unpark(stored);
                s.delete(key.as_str());
                self.store = Some(s);
                records
            },
            None => Vec::new(),
        }
    }

    /// The index of the first buffer of node `id`.
    fn find_join(&self, id: &str) -> (r: Option<usize>)
        ensures
            match r {
                Some(i) => first_buffer_at(self.buffers.joins@, id@, i as int),
                None => !has_buffer(self.buffers.joins@, id@),
            },
    {
        let mut i: usize = 0;
        while i < self.buffers.joins.len()
            invariant
                i <= self.buffers.joins@.len(),
                forall|j: int| 0 <= j < i ==> (#[trigger] self.buffers.joins@[j]).0@ != id@,
            decreases self.buffers.joins.len() - i,
        {
            if str_eq(self.buffers.joins[i].0.as_str(), id) {
                return Some(i);
            }
            i = i + 1;
        }
        None
    }

    /// The index of the first batch buffer of node `id`.
    fn find_batch(&self, id: &str) -> (r: Option<usize>)
        ensures
            match r {
                Some(i) => first_buffer_at(self.buffers.batches@, id@, i as int),
                None => !has_buffer(self.buffers.batches@, id@),
            },
    {
        let mut i: usize = 0;
        while i < self.buffers.batches.len()
            invariant
                i <= self.buffers.batches@.len(),
                forall|j: int| 0 <= j < i ==> (#[trigger] self.buffers.batches@[j]).0@ != id@,
            decreases self.buffers.batches.len() - i,
        {
            if str_eq(self.buffers.batches[i].0.as_str(), id) {
                return Some(i);
            }
            i = i + 1;
        }
        None
    }

    /// Offer a record to the `join` node `node_id`, filed under its
    /// correlation id; when its group completes, the merged record to route
    /// on. A node without a join buffer drops the record.
    pub fn offer_join(&mut self, node_id: &str, record: Record) -> (r: Option<Record>)
        requires
            old(self).wf(),
        ensures
            final(self).wf(),
            old(self).same_run_except_buffers(final(self)),
            final(self).stats() == old(self).stats(),
            final(self).step_table() == old(self).step_table(),
            final(self).states_view() == old(self).states_view(),
            final(self).stored() == old(self).stored(),
            final(self).since() == old(self).since(),
            final(self).gate() == old(self).gate(),
            final(self).buffers_view().batches == old(self).buffers_view().batches,
            final(self).buffers_view().sinks == old(self).buffers_view().sinks,
            !has_buffer(old(self).buffers_view().joins@, node_id@) ==> r is None && final(self).buffers_view() == old(self).buffers_view(),
            forall|i: int| #[trigger] first_buffer_at(old(self).buffers_view().joins@, node_id@, i) ==> {
                let (id, before) = old(self).buffers_view().joins@[i];
                let after = final(self).buffers_view().joins@[i].1;
                &&& final(self).buffers_view().joins@ == old(self).buffers_view().joins@.update(i, (id, after))
                &&& exists|c: Seq<char>, released: Option<Seq<Record>>| {
                    &&& correlation_for(record, c)
                    &&& #[trigger] join_offered(before, after, c, record, released)
                    &&& match released {
                        Some(group) => r matches Some(m) && merged_group(m, group),
                        None => r is None,
                    }
                }
            },
    {
        match self.find_join(node_id) {
            None => None,
            Some(i) => {
                let ghost old_joins = self.buffers.joins@;
                let c = correlation_of(&record);
                let ghost cv = c@;
                let ghost rec = record;
                let (id, mut buffer) = self.buffers.joins.remove(i);
                let ghost before = buffer;
                let released = buffer.offer(c.as_str(), record);
                let ghost rel = records_view(released);
                let ghost after = buffer;
                self.buffers.joins.insert(i, (id, buffer));
                proof {
                    assert(self.buffers.joins@ =~= old_joins.update(i as int, (old_joins[i as int].0, after)));
                    assert(correlation_for(rec, cv));
                    assert(join_offered(before, after, cv, rec, rel));
                    assert forall|j: int| 0 <= j < self.buffers.joins@.len() implies (#[trigger] self.buffers.joins@[j]).1.wf() by {
                        if j != i {
                            assert(self.buffers.joins@[j] == old_joins[j]);
                        }
                    }
                }
                match released {
                    Some(group) => Some(merge_records(group)),
                    None => None,
                }
            },
        }
    }

    /// Buffer a record in the `batch` node `node_id` at time `now` (in
    /// milliseconds); when the batch is complete, the `{ items }` record to
    /// route on. A node without a batch buffer drops the record.
    pub fn offer_batch(&mut self, node_id: &str, record: Record, size: Option<usize>, within: Option<u64>, now: u64) -> (r: Option<Record>)
        requires
            old(self).wf(),
        ensures
            final(self).wf(),
            old(self).same_run_except_buffers(final(self)),
            final(self).stats() == old(self).stats(),
            final(self).step_table() == old(self).step_table(),
            final(self).states_view() == old(self).states_view(),
            final(self).stored() == old(self).stored(),
            final(self).since() == old(self).since(),
            final(self).gate() == old(self).gate(),
            final(self).buffers_view().joins == old(self).buffers_view().joins,
            final(self).buffers_view().sinks == old(self).buffers_view().sinks,
            !has_buffer(old(self).buffers_view().batches@, node_id@) ==> r is None && final(self).buffers_view() == old(self).buffers_view(),
            forall|i: int| #[trigger] first_buffer_at(old(self).buffers_view().batches@, node_id@, i) ==> {
                let (id, before) = old(self).buffers_view().batches@[i];
                let after = final(self).buffers_view().batches@[i].1;
                &&& final(self).buffers_view().batches@ == old(self).buffers_view().batches@.update(i, (id, after))
                &&& exists|released: Option<Seq<Record>>| {
                    &&& #[trigger] batch_offered(before, after, record, size, within, now, released)
                    &&& match released {
                        Some(items) => r matches Some(b) && b.payload@ == batch_view(items) && b.metadata@.len() == 0,
                        None => r is None,
                    }
                }
            },
    {
        match self.find_batch(node_id) {
            None => None,
            Some(i) => {
                let ghost old_batches = self.buffers.batches@;
                let ghost rec = record;
                let (id, mut buffer) = self.buffers.batches.remove(i);
                let ghost before = buffer;
                let released = buffer.offer(record, size, within, now);
                let ghost rel = records_view(released);
                let ghost after = buffer;
                self.buffers.batches.insert(i, (id, buffer));
                proof {
                    assert(self.buffers.batches@ =~= old_batches.update(i as int, (old_batches[i as int].0, after)));
                    assert(batch_offered(before, after, rec, size, within, now, rel));
                }
                match released {
                    Some(items) => Some(batch_record(&items)),
                    None => None,
                }
            },
        }
    }

    /// At the end of the input, empty every batch buffer and hand out the
    /// batch each non-empty one emits, with its node id, in buffer order.
    pub fn flush_batches(&mut self) -> (r: Vec<(String, Record)>)
        requires
            old(self).wf(),
        ensures
            final(self).wf(),
            old(self).same_run_except_buffers(final(self)),
            final(self).stats() == old(self).stats(),
            final(self).step_table() == old(self).step_table(),
            final(self).states_view() == old(self).states_view(),
            final(self).stored() == old(self).stored(),
            final(self).since() == old(self).since(),
            final(self).gate() == old(self).gate(),
            final(self).buffers_view().joins == old(self).buffers_view().joins,
            final(self).buffers_view().sinks == old(self).buffers_view().sinks,
            final(self).buffers_view().batches@.len() == old(self).buffers_view().batches@.len(),
            forall|i: int| 0 <= i < final(self).buffers_view().batches@.len() ==> {
                &&& (#[trigger] final(self).buffers_view().batches@[i]).0 == old(self).buffers_view().batches@[i].0
                &&& final(self).buffers_view().batches@[i].1.records@.len() == 0
                &&& final(self).buffers_view().batches@[i].1.since is None
            },
            r@.len() == flushed_batches(old(self).buffers_view().batches@).len(),
            forall|i: int| 0 <= i < r@.len() ==> {
                let (id, payload) = flushed_batches(old(self).buffers_view().batches@)[i];
                &&& (#[trigger] r@[i]).0@ == id
                &&& r@[i].1.payload@ == payload
                &&& r@[i].1.metadata@.len() == 0
            },
    {
        let ghost old_batches = self.buffers.batches@;
        let mut batches: Vec<(String, BatchBuffer)> = Vec::new();
        std::mem::swap(&mut batches, &mut self.buffers.batches);
        let mut out: Vec<(String, Record)> = Vec::new();
        let mut emptied: Vec<(String, BatchBuffer)> = Vec::new();
        let mut i: usize = 0;
        let n = batches.len();
        while batches.len() > 0
            invariant
                n == old_batches.len(),
                i + batches@.len() == n,
                batches@ == old_batches.subrange(i as int, n as int),
                emptied@.len() == i,
                forall|k: int| 0 <= k < i ==> {
                    &&& (#[trigger] emptied@[k]).0 == old_batches[k].0
                    &&& emptied@[k].1.records@.len() == 0
                    &&& emptied@[k].1.since is None
                },
                out@.len() == flushed_batches(old_batches.subrange(0, i as int)).len(),
                forall|k: int| 0 <= k < out@.len() ==> {
                    let (id, payload) = flushed_batches(old_batches.subrange(0, i as int))[k];
                    &&& (#[trigger] out@[k]).0@ == id
                    &&& out@[k].1.payload@ == payload
                    &&& out@[k].1.metadata@.len() == 0
                },
            decreases batches.len(),
        {
            let (id, mut buffer) = batches.remove(0);
            assert(old_batches.subrange(0, i + 1).drop_last() =~= old_batches.subrange(0, i as int));
            assert(old_batches.subrange(0, i + 1).last() == old_batches[i as int]);
            let records = buffer.drain();
            if records.len() > 0 {
                let batch = batch_record(&records);
                out.push((id.clone(), batch));
            }
            emptied.push((id, buffer));
            i = i + 1;
            assert(batches@ =~= old_batches.subrange(i as int, n as int));
        }
        assert(old_batches.subrange(0, n as int) =~= old_batches);
        self.buffers.batches = emptied;
        out
    }

    /// Record an error event of step `step`.
    fn record_error(&mut self, step: &str, kind: &str, message: String)
        requires
            old(self).wf(),
        ensures
            final(self).wf(),
            old(self).same_run_but_errors(final(self)),
            error_recorded(old(self).error_log(), final(self).error_log(), step@, kind@, message),
            final(self).stats() == old(self).stats(),
            final(self).step_table() == old(self).step_table(),
            final(self).states_view() == old(self).states_view(),
            final(self).stored() == old(self).stored(),
            final(self).since() == old(self).since(),
            final(self).gate() == old(self).gate(),
    {
        self.errors.record(step, kind, message);
    }

    /// The recorded error events, newest first.
    pub fn error_events(&self) -> (r: Vec<ErrorEvent>)
        ensures
            r@ == self.error_log().reverse(),
    {
        self.errors.events()
    }

    /// Book a transform's outcome on step `node_id` (attempt `attempt`
    /// under `policy`, taking `nanos`) and say what follows: a passed or
    /// expanded record is routed on; a filtered one is counted and dropped;
    /// a failure is retried while the policy allows, else counted, recorded
    /// as a `transform` error event, and the record dropped (`continue`) or
    /// the run stopped.
    pub fn after_transform(
        &mut self,
        node_id: &str,
        policy: ErrorPolicy,
        attempt: u32,
        outcome: Result<TransformOutcome, String>,
        nanos: u64,
    ) -> (r: TransformNext)
        requires
            old(self).wf(),
            has_room(stat_of(old(self).step_table(), node_id@), nanos),
        ensures
            final(self).wf(),
            old(self).same_run_but_errors(final(self)),
            final(self).states_view() == old(self).states_view(),
            final(self).stored() == old(self).stored(),
            final(self).since() == old(self).since(),
            final(self).gate() == old(self).gate(),
            forall|k: Seq<char>| k != node_id@ ==> #[trigger] stat_of(final(self).step_table(), k) == stat_of(old(self).step_table(), k),
            ({
                let stat = stat_of(old(self).step_table(), node_id@);
                let stat2 = stat_of(final(self).step_table(), node_id@);
                match outcome {
                    Ok(TransformOutcome::Pass(rec)) => {
                        &&& r matches TransformNext::Route(v) && v@ == seq![rec]
                        &&& final(self).error_log() == old(self).error_log()
                        &&& final(self).stats() == old(self).stats()
                        &&& stat2 == ticked(stat, Tick::Processed { nanos })
                    },
                    Ok(TransformOutcome::Expand(recs)) => {
                        &&& r matches TransformNext::Route(v) && v@ == recs@
                        &&& final(self).error_log() == old(self).error_log()
                        &&& final(self).stats() == old(self).stats()
                        &&& stat2 == ticked(stat, Tick::Processed { nanos })
                    },
                    Ok(TransformOutcome::Filtered) => {
                        &&& r is Drop
                        &&& final(self).error_log() == old(self).error_log()
                        &&& final(self).stats() == counted(old(self).stats(), Counter::Filtered)
                        &&& stat2 == ticked(stat, Tick::Filtered { nanos })
                    },
                    Ok(TransformOutcome::Fail(e)) | Err(e) => match failure_choice(policy, attempt) {
                        FailureAction::Retry { attempt: next, backoff_millis } => {
                            &&& r == (TransformNext::Retry { attempt: next, backoff_millis })
                            &&& final(self).error_log() == old(self).error_log()
                            &&& final(self).stats() == old(self).stats()
                            &&& stat2 == stat
                        },
                        FailureAction::Continue => {
                            &&& r is Drop
                            &&& error_recorded(old(self).error_log(), final(self).error_log(), node_id@, "transform"@, e)
                            &&& final(self).stats() == counted(old(self).stats(), Counter::Errors)
                            &&& stat2 == ticked(stat, Tick::Failed { nanos })
                        },
                        FailureAction::Fail => {
                            &&& r == TransformNext::Abort(e)
                            &&& error_recorded(old(self).error_log(), final(self).error_log(), node_id@, "transform"@, e)
                            &&& final(self).stats() == counted(old(self).stats(), Counter::Errors)
                            &&& stat2 == ticked(stat, Tick::Failed { nanos })
                        },
                    },
                }
            }),
    {
        let failure = match outcome {
            Ok(TransformOutcome::Pass(rec)) => {
                self.tick(node_id, Tick::Processed { nanos });
                let mut v: Vec<Record> = Vec::new();
                v.push(rec);
                return TransformNext::Route(v);
            },
            Ok(TransformOutcome::Expand(recs)) => {
                self.tick(node_id, Tick::Processed { nanos });
                return TransformNext::Route(recs);
            },
            Ok(TransformOutcome::Filtered) => {
                self.count(Counter::Filtered);
                self.tick(node_id, Tick::Filtered { nanos });
                return TransformNext::Drop;
            },
            Ok(TransformOutcome::Fail(e)) => e,
            Err(e) => e,
        };
        match failure_action(policy, attempt) {
            FailureAction::Retry { attempt, backoff_millis } => TransformNext::Retry { attempt, backoff_millis },
            FailureAction::Continue => {
                self.count(Counter::Errors);
                self.tick(node_id, Tick::Failed { nanos });
                self.record_error(node_id, "transform", failure);
                TransformNext::Drop
            },
            FailureAction::Fail => {
                self.count(Counter::Errors);
                self.tick(node_id, Tick::Failed { nanos });
                self.record_error(node_id, "transform", failure.clone());
                TransformNext::Abort(failure)
            },
        }
    }

    /// Book a record the sink `node_id` accepted (taking `nanos`): marked
    /// delivered, counted as processed in the run and in the step.
    pub fn record_delivery(&mut self, node_id: &str, record: &Record, payload_hash: u64, nanos: u64)
        requires
            old(self).wf(),
            has_room(stat_of(old(self).step_table(), node_id@), nanos),
        ensures
            final(self).wf(),
            old(self).same_run(final(self)),
            final(self).states_view() == old(self).states_view(),
            final(self).since() == old(self).since(),
            final(self).gate() == old(self).gate(),
            final(self).stored() == match old(self).stored() {
                Some(m) => Some(m.insert(old(self).run() + ":delivered:"@ + delivery_id(*record, payload_hash), JsonView::Bool(true))),
                None => None,
            },
            final(self).stats() == counted(old(self).stats(), Counter::Processed),
            stat_of(final(self).step_table(), node_id@) == ticked(stat_of(old(self).step_table(), node_id@), Tick::Processed { nanos }),
            forall|k: Seq<char>| k != node_id@ ==> #[trigger] stat_of(final(self).step_table(), k) == stat_of(old(self).step_table(), k),
    {
        self.mark_delivered(record, payload_hash);
        self.count(Counter::Processed);
        self.tick(node_id, Tick::Processed { nanos });
    }

    /// Book a failure of the sink `node_id` taking `nanos` (it refused a
    /// record with `message`): counted as an error in the run and in the
    /// step, and recorded as a `sink` error event.
    pub fn record_failure(&mut self, node_id: &str, nanos: u64, message: String)
        requires
            old(self).wf(),
            has_room(stat_of(old(self).step_table(), node_id@), nanos),
        ensures
            final(self).wf(),
            old(self).same_run_but_errors(final(self)),
            error_recorded(old(self).error_log(), final(self).error_log(), node_id@, "sink"@, message),
            final(self).states_view() == old(self).states_view(),
            final(self).stored() == old(self).stored(),
            final(self).since() == old(self).since(),
            final(self).gate() == old(self).gate(),
            final(self).stats() == counted(old(self).stats(), Counter::Errors),
            stat_of(final(self).step_table(), node_id@) == ticked(stat_of(old(self).step_table(), node_id@), Tick::Failed { nanos }),
            forall|k: Seq<char>| k != node_id@ ==> #[trigger] stat_of(final(self).step_table(), k) == stat_of(old(self).step_table(), k),
    {
        self.count(Counter::Errors);
        self.tick(node_id, Tick::Failed { nanos });
        self.record_error(node_id, "sink", message);
    }

    /// Book a condition of step `node_id` that could not be evaluated:
    /// counted as an error in the run and in the step.
    pub fn record_condition_error(&mut self, node_id: &str)
        requires
            old(self).wf(),
            has_room(stat_of(old(self).step_table(), node_id@), 0),
        ensures
            final(self).wf(),
            old(self).same_run(final(self)),
            final(self).states_view() == old(self).states_view(),
            final(self).stored() == old(self).stored(),
            final(self).since() == old(self).since(),
            final(self).gate() == old(self).gate(),
            final(self).stats() == counted(old(self).stats(), Counter::Errors),
            stat_of(final(self).step_table(), node_id@) == ticked(stat_of(old(self).step_table(), node_id@), Tick::Error),
            forall|k: Seq<char>| k != node_id@ ==> #[trigger] stat_of(final(self).step_table(), k) == stat_of(old(self).step_table(), k),
    {
        self.count(Counter::Errors);
        self.tick(node_id, Tick::Error);
    }

    /// An `approve` step: with a store, park the record in the step's
    /// approval queue and count it as waiting (nothing is routed); without
    /// one, hand the record back to be routed through.
    pub fn hold_for_approval(&mut self, node_id: &str, record: Record) -> (r: Option<Record>)
        requires
            old(self).wf(),
        ensures
            final(self).wf(),
            old(self).same_run(final(self)),
            final(self).step_table() == old(self).step_table(),
            final(self).states_view() == old(self).states_view(),
            final(self).since() == old(self).since(),
            final(self).gate() == old(self).gate(),
            match old(self).stored() {
                Some(m) => {
                    let key = old(self).flow() + ":approve:"@ + node_id@;
                    &&& r is None
                    &&& final(self).stats() == counted(old(self).stats(), Counter::Waiting)
                    &&& final(self).stored() == Some(m.insert(key, JsonView::Array(parked_view(stored_at(m, key)).push(record.payload@))))
                },
                None => {
                    &&& r == Some(record)
                    &&& final(self).stats() == old(self).stats()
                    &&& final(self).stored() is None
                },
            },
    {
        if self.store.is_some() {
            self.park_approve(node_id, &record);
            self.count(Counter::Waiting);
            None
        } else {
            Some(record)
        }
    }

    /// Take the approval queue of every `approve` step (or of the named
    /// one), in step order: each step's id with the records parked for it,
    /// in parking order; the queues are cleared.
    pub fn take_pending_approvals(&mut self, step: Option<&str>) -> (r: Vec<(String, Vec<Record>)>)
        requires
            old(self).wf(),
            distinct_ids(old(self).graph_view().nodes@),
        ensures
            final(self).wf(),
            old(self).same_run(final(self)),
            final(self).stats() == old(self).stats(),
            final(self).step_table() == old(self).step_table(),
            final(self).states_view() == old(self).states_view(),
            final(self).since() == old(self).since(),
            final(self).gate() == old(self).gate(),
            ({
                let ids = approve_ids(old(self).graph_view().nodes@, match step {
                    Some(f) => Some(f@),
                    None => None,
                });
                &&& r@.len() == ids.len()
                &&& forall|k: int| 0 <= k < r@.len() ==> (#[trigger] r@[k]).0@ == ids[k]
                &&& match old(self).stored() {
                    Some(m) => {
                        &&& forall|k: int| 0 <= k < r@.len() ==> {
                            let parked = parked_view(stored_at(m, approve_store_key(old(self).flow(), ids[k])));
                            &&& (#[trigger] r@[k]).1@.len() == parked.len()
                            &&& forall|q: int| 0 <= q < parked.len() ==> (#[trigger] r@[k].1@[q]).payload@ == parked[q] && r@[k].1@[q].metadata@.len() == 0
                        }
                        &&& final(self).stored() matches Some(m2) && m2 == m.remove_keys(
                            Set::new(|key: Seq<char>| exists|k: int| 0 <= k < ids.len() && key == approve_store_key(old(self).flow(), #[trigger] ids[k])),
                        )
                    },
                    None => final(self).stored() is None && forall|k: int| 0 <= k < r@.len() ==> (#[trigger] r@[k]).1@.len() == 0,
                }
            }),
    {
        let ghost stepv: Option<Seq<char>> = match step {
            Some(f) => Some(f@),
            None => None,
        };
        let ghost nodes = self.graph.nodes@;
        let ghost all = approve_ids(nodes, stepv);
        let ghost m0 = self.stored();
        let ghost flow = self.flow_name@;
        proof {
            lemma_approve_ids(nodes, stepv);
        }
        let mut ids: Vec<String> = Vec::new();
        let mut i: usize = 0;
        while i < self.graph.nodes.len()
            invariant
                nodes == self.graph.nodes@,
                i <= nodes.len(),
                ids@.map_values(|s: String| s@) == approve_ids(nodes.subrange(0, i as int), stepv),
                stepv == match step {
                    Some(f) => Some(f@),
                    None => None::<Seq<char>>,
                },
            decreases self.graph.nodes.len() - i,
        {
            let node = &self.graph.nodes[i];
            assert(nodes.subrange(0, i + 1).drop_last() =~= nodes.subrange(0, i as int));
            assert(nodes.subrange(0, i + 1).last() == nodes[i as int]);
            let is_approve = match &node.step {
                NodeStep::Control(ControlNode::Approve { .. }) => true,
                _ => false,
            };
            let selected = match step {
                None => true,
                Some(f) => str_eq(f, node.id.as_str()),
            };
            if is_approve && selected {
                let ghost before = ids@;
                ids.push(node.id.clone());
                assert(ids@.map_values(|s: String| s@) =~= before.map_values(|s: String| s@).push(node.id@));
            }
            i = i + 1;
        }
        assert(nodes.subrange(0, nodes.len() as int) =~= nodes);
        assert(forall|k: int| 0 <= k < ids@.len() ==> #[trigger] ids@[k]@ == all[k]) by {
            assert forall|k: int| 0 <= k < ids@.len() implies #[trigger] ids@[k]@ == all[k] by {
                assert(ids@.map_values(|s: String| s@)[k] == ids@[k]@);
            }
        }
        let mut out: Vec<(String, Vec<Record>)> = Vec::new();
        let mut k: usize = 0;
        while k < ids.len()
            invariant
                k <= ids@.len(),
                ids@.len() == all.len(),
                forall|a: int| 0 <= a < ids@.len() ==> #[trigger] ids@[a]@ == all[a],
                forall|a: int, b: int| 0 <= a < all.len() && 0 <= b < all.len() && a != b ==> #[trigger] all[a] != #[trigger] all[b],
                self.wf(),
                old(self).same_run(self),
                self.stats() == old(self).stats(),
                self.step_table() == old(self).step_table(),
                self.states_view() == old(self).states_view(),
                self.since() == old(self).since(),
                self.gate() == old(self).gate(),
                flow == self.flow(),
                m0 == old(self).stored(),
                out@.len() == k,
                forall|a: int| 0 <= a < k ==> (#[trigger] out@[a]).0@ == all[a],
                match m0 {
                    Some(m) => {
                        &&& forall|a: int| 0 <= a < k ==> {
                            let parked = parked_view(stored_at(m, approve_store_key(flow, all[a])));
                            &&& (#[trigger] out@[a]).1@.len() == parked.len()
                            &&& forall|q: int| 0 <= q < parked.len() ==> (#[trigger] out@[a].1@[q]).payload@ == parked[q] && out@[a].1@[q].metadata@.len() == 0
                        }
                        &&& self.stored() matches Some(cur) && cur == m.remove_keys(
                            Set::new(|key: Seq<char>| exists|a: int| 0 <= a < k && key == approve_store_key(flow, #[trigger] all[a])),
                        )
                    },
                    None => self.stored() is None && forall|a: int| 0 <= a < k ==> (#[trigger] out@[a]).1@.len() == 0,
                },
            decreases ids.len() - k,
        {
            let ghost before_store = self.stored();
            let ghost key = approve_store_key(flow, all[k as int]);
            let records = self.take_approve_queue(ids[k].as_str());
            proof {
                match m0 {
                    Some(m) => {
                        let removed = Set::new(|key2: Seq<char>| exists|a: int| 0 <= a < k && key2 == approve_store_key(flow, #[trigger] all[a]));
                        let removed2 = Set::new(|key2: Seq<char>| exists|a: int| 0 <= a < k + 1 && key2 == approve_store_key(flow, #[trigger] all[a]));
                        assert(!removed.contains(key)) by {
                            if removed.contains(key) {
                                let a = choose|a: int| 0 <= a < k && key == approve_store_key(flow, #[trigger] all[a]);
                                lemma_prefix_cancel(flow + ":approve:"@, all[a], all[k as int]);
                            }
                        }
                        let cur = before_store.unwrap();
                        assert(stored_at(cur, key) == stored_at(m, key));
                        assert(removed2 =~= removed.insert(key)) by {
                            assert forall|key2: Seq<char>| removed2.contains(key2) implies #[trigger] removed.insert(key).contains(key2) by {
                                let a = choose|a: int| 0 <= a < k + 1 && key2 == approve_store_key(flow, #[trigger] all[a]);
                                if a < k {
                                    assert(removed.contains(key2));
                                }
                            }
                            assert forall|key2: Seq<char>| removed.insert(key).contains(key2) implies #[trigger] removed2.contains(key2) by {
                                if key2 == key {
                                    assert(0 <= k < k + 1 && key2 == approve_store_key(flow, all[k as int]));
                                } else {
                                    let a = choose|a: int| 0 <= a < k && key2 == approve_store_key(flow, #[trigger] all[a]);
                                    assert(0 <= a < k + 1);
                                }
                            }
                        }
                        assert(m.remove_keys(removed2) =~= cur.remove(key));
                    },
                    None => {},
                }
            }
            out.push((ids[k].clone(), records));
            k = k + 1;
        }
        proof {
            match m0 {
                Some(m) => {
                    let ids_set = Set::new(|key: Seq<char>| exists|a: int| 0 <= a < all.len() && key == approve_store_key(flow, #[trigger] all[a]));
                    let done = Set::new(|key: Seq<char>| exists|a: int| 0 <= a < k && key == approve_store_key(flow, #[trigger] all[a]));
                    assert(ids_set =~= done);
                },
                None => {},
            }
        }
        out
    }

    /// Begin walking a record into node `node_id`: `verdict` is the value
    /// of the node's condition (`None` when evaluating it failed; unused
    /// when the node has none) and `payload_hash` the hash of the record's
    /// payload text. Books a failed condition and a duplicate delivery.
    pub fn begin_walk(&mut self, node_id: &str, verdict: Option<bool>, record: &Record, payload_hash: u64) -> (r: WalkPlan)
        requires
            old(self).wf(),
            has_room(stat_of(old(self).step_table(), node_id@), 0),
        ensures
            final(self).wf(),
            old(self).same_run(final(self)),
            final(self).states_view() == old(self).states_view(),
            final(self).stored() == old(self).stored(),
            final(self).since() == old(self).since(),
            final(self).gate() == old(self).gate(),
            forall|k: Seq<char>| k != node_id@ ==> #[trigger] stat_of(final(self).step_table(), k) == stat_of(old(self).step_table(), k),
            ({
                let nodes = old(self).graph_view().nodes@;
                let i = node_index(nodes, node_id@);
                let stat = stat_of(old(self).step_table(), node_id@);
                let stat2 = stat_of(final(self).step_table(), node_id@);
                if i < 0 {
                    r == WalkPlan::Drop && final(self).stats() == old(self).stats() && stat2 == stat
                } else {
                    let node = nodes[i];
                    match gate_of(node.when is Some, verdict) {
                        Gate::Skip => r == WalkPlan::Drop && final(self).stats() == old(self).stats() && stat2 == stat,
                        Gate::Error => {
                            &&& r == WalkPlan::Drop
                            &&& final(self).stats() == counted(old(self).stats(), Counter::Errors)
                            &&& stat2 == ticked(stat, Tick::Error)
                        },
                        Gate::Pass => {
                            &&& stat2 == stat
                            &&& match node.step {
                                NodeStep::Sink => if delivered_in(old(self).stored(), old(self).run(), *record, payload_hash) {
                                    r == WalkPlan::Drop && final(self).stats() == counted(old(self).stats(), Counter::Duplicates)
                                } else {
                                    r == WalkPlan::Deliver && final(self).stats() == old(self).stats()
                                },
                                NodeStep::Transform => r == WalkPlan::Transform && final(self).stats() == old(self).stats(),
                                NodeStep::Control(_) => r == WalkPlan::Control && final(self).stats() == old(self).stats(),
                                NodeStep::Source => r == WalkPlan::Route && final(self).stats() == old(self).stats(),
                            }
                        },
                    }
                }
            }),
    {
        let (has_condition, action) = match self.graph.node(node_id) {
            None => {
                return WalkPlan::Drop;
            },
            Some(node) => {
                let delivered = self.is_delivered(record, payload_hash);
                (node.when.is_some(), walk_action(Some(node), delivered))
            },
        };
        match gate(has_condition, verdict) {
            Gate::Skip => WalkPlan::Drop,
            Gate::Error => {
                self.record_condition_error(node_id);
                WalkPlan::Drop
            },
            Gate::Pass => match action {
                WalkAction::Duplicate => {
                    self.count(Counter::Duplicates);
                    WalkPlan::Drop
                },
                WalkAction::Deliver => WalkPlan::Deliver,
                WalkAction::Transform => WalkPlan::Transform,
                WalkAction::Control => WalkPlan::Control,
                WalkAction::Route => WalkPlan::Route,
                WalkAction::UnknownNode => WalkPlan::Drop,
            },
        }
    }

    /// The targets a record leaving node `node_id` is routed to, in order:
    /// the routes without a condition and those whose condition held
    /// (`verdicts[i]` is route `i`'s); each condition that could not be
    /// evaluated counts as an error. An unknown node routes nowhere.
    pub fn route_targets(&mut self, node_id: &str, verdicts: &Vec<Option<bool>>) -> (r: Vec<String>)
        requires
            old(self).wf(),
        ensures
            final(self).wf(),
            old(self).same_run(final(self)),
            final(self).step_table() == old(self).step_table(),
            final(self).states_view() == old(self).states_view(),
            final(self).stored() == old(self).stored(),
            final(self).since() == old(self).since(),
            final(self).gate() == old(self).gate(),
            ({
                let nodes = old(self).graph_view().nodes@;
                let i = node_index(nodes, node_id@);
                if i < 0 {
                    r@.len() == 0 && final(self).stats() == old(self).stats()
                } else {
                    let routes = nodes[i].routes@;
                    &&& r@ == taken(routes, verdicts@)
                    &&& final(self).stats() == StatsSnapshot {
                        errors: bumped_by(old(self).stats().errors, failed_conditions(routes, verdicts@)),
                        ..old(self).stats()
                    }
                }
            }),
    {
        let (targets, failed) = match self.graph.node(node_id) {
            None => {
                return Vec::new();
            },
            Some(node) => {
                let targets = routes_taken(&node.routes, verdicts);
                let mut failed: usize = 0;
                let mut i: usize = 0;
                while i < node.routes.len()
                    invariant
                        i <= node.routes@.len(),
                        failed == failed_conditions(node.routes@.subrange(0, i as int), verdicts@),
                        failed <= i,
                    decreases node.routes.len() - i,
                {
                    assert(node.routes@.subrange(0, i + 1).drop_last() =~= node.routes@.subrange(0, i as int));
                    if node.routes[i].when.is_some() && i < verdicts.len() && verdicts[i].is_none() {
                        failed = failed + 1;
                    }
                    i = i + 1;
                }
                assert(node.routes@.subrange(0, node.routes@.len() as int) =~= node.routes@);
                (targets, failed)
            },
        };
        let ghost start = self.counters;
        let mut k: usize = 0;
        while k < failed
            invariant
                k <= failed,
                self.wf(),
                old(self).same_run(self),
                self.step_table() == old(self).step_table(),
                self.states_view() == old(self).states_view(),
                self.stored() == old(self).stored(),
                self.since() == old(self).since(),
                self.gate() == old(self).gate(),
                start == old(self).stats(),
                self.stats() == (StatsSnapshot { errors: bumped_by(start.errors, k as nat), ..start }),
            decreases failed - k,
        {
            self.count(Counter::Errors);
            k = k + 1;
        }
        targets
    }

    /// A `foreach` node: the children of a record, from the evaluated `over`
    /// expression (each item stored in the field, at most `max_iterations`);
    /// when the evaluation failed or gave no array, no child, and an error
    /// is counted.
    pub fn expand_foreach(
        &mut self,
        record: &Record,
        evaluated: Result<Json, String>,
        as_field: &Option<String>,
        max_iterations: usize,
    ) -> (r: Vec<Record>)
        requires
            old(self).wf(),
        ensures
            final(self).wf(),
            old(self).same_run(final(self)),
            final(self).step_table() == old(self).step_table(),
            final(self).states_view() == old(self).states_view(),
            final(self).stored() == old(self).stored(),
            final(self).since() == old(self).since(),
            final(self).gate() == old(self).gate(),
            match evaluated {
                Ok(Json::Array(items)) => {
                    &&& final(self).stats() == old(self).stats()
                    &&& r@.len() == if items@.len() > max_iterations {
                        max_iterations as nat
                    } else {
                        items@.len()
                    }
                    &&& forall|i: int|
                        0 <= i < r@.len() ==> (#[trigger] r@[i]).payload@ == set_field(
                            record.payload@,
                            foreach_field(*as_field),
                            items@[i]@,
                        ) && r@[i].metadata@ == record.metadata@
                },
                _ => r@.len() == 0 && final(self).stats() == counted(old(self).stats(), Counter::Errors),
            },
    {
        match foreach_items(evaluated) {
            Some(items) => foreach_children(record, items, as_field, max_iterations).0,
            None => {
                self.count(Counter::Errors);
                Vec::new()
            },
        }
    }

    /// Whether the sources may hand over another record: not while the
    /// gate is closed (a record pulled then is held until resumed).
    pub fn admits_intake(&self) -> (r: bool)
        ensures
            r == !(self.gate() == Some(true)),
    {
        !self.is_paused()
    }

    /// Hand back the store at the end of the run.
    pub fn into_store(self) -> (r: Option<MemoryStore>)
        requires
            self.wf(),
        ensures
            opt_store(r) == self.stored(),
            r matches Some(s) ==> s.wf(),
    {
        self.store
    }
}

/// A record marked as delivered is found delivered afterwards, in the same
/// run, whatever the store held.
pub proof fn delivered_records_are_skipped(m: Map<Seq<char>, JsonView>, run: Seq<char>, record: Record, payload_hash: u64)
    ensures
        delivered_in(
            Some(m.insert(run + ":delivered:"@ + delivery_id(record, payload_hash), JsonView::Bool(true))),
            run,
            record,
            payload_hash,
        ),
{
}

/// Resuming a run after a checkpoint starts each step with the state the
/// checkpoint stored for it.
pub proof fn resume_restores_checkpointed_states(
    before: Map<Seq<char>, JsonView>,
    after: Map<Seq<char>, JsonView>,
    run: Seq<char>,
    states: Map<Seq<char>, JsonView>,
    id: Seq<char>,
    declared: JsonView,
)
    requires
        checkpointed(before, after, run, states),
        states.contains_key(id),
    ensures
        restored_state(declared, state_store_key(run, id), true, Some(after)) == states[id],
{
}

/// Parking a record appends it to the queue, so that taking the queue gives
/// back every parked record in parking order.
pub proof fn approval_queue_keeps_order(m: Map<Seq<char>, JsonView>, key: Seq<char>, payload: JsonView)
    ensures
        parked_view(stored_at(m.insert(key, JsonView::Array(parked_view(stored_at(m, key)).push(payload))), key))
            == parked_view(stored_at(m, key)).push(payload),
{
}

/// A resumed run skips what an earlier attempt delivered: when the store
/// holds the flow's run id and the delivery marker of a record, a run
/// resumed from that store (which keeps that run id and that store, as
/// `Executor::new` states) finds the record delivered, so `begin_walk`
/// drops it at the sink as a duplicate.
pub proof fn resumed_run_skips_delivered(
    ex: Executor,
    stored: Map<Seq<char>, JsonView>,
    run: Seq<char>,
    record: Record,
    payload_hash: u64,
)
    requires
        ex.stored() == Some(stored),
        ex.run() == run,
        stored.contains_key(run + ":delivered:"@ + delivery_id(record, payload_hash)),
    ensures
        delivered_in(ex.stored(), ex.run(), record, payload_hash),
{
}

/// Intake stays held from a pause until a resume: pausing sets the pause
/// flag (when the run has one), only `resume` clears it, and every other
/// operation of the executor leaves it unchanged.
pub proof fn paused_until_resumed(before: Option<bool>, paused: Option<bool>, resumed: Option<bool>)
    requires
        before is Some,
        paused == match before {
            Some(_) => Some(true),
            None => None::<bool>,
        },
        resumed == match paused {
            Some(_) => Some(false),
            None => None::<bool>,
        },
    ensures
        paused == Some(true),
        resumed == Some(false),
{
}

} // verus!
