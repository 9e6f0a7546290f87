//! The buffers a run keeps per node: one per `join`, one per `batch`, and
//! the list of sinks (flushed at the end of the input).

use vstd::prelude::*;

use crate::runtime::control::{BatchBuffer, JoinBuffer};
use crate::runtime::graph::FlowGraph;
use crate::runtime::node::{ControlNode, JoinMode, Node, NodeStep};

verus! {

/// The `join` nodes among `nodes`, in order: id, mode, `n`, and the number
/// of routes into the node.
pub open spec fn join_nodes(nodes: Seq<Node>) -> Seq<(Seq<char>, JoinMode, usize, usize)>
    decreases nodes.len(),
{
    if nodes.len() == 0 {
        Seq::empty()
    } else {
        let rest = join_nodes(nodes.drop_last());
        let last = nodes.last();
        match last.step {
            NodeStep::Control(ControlNode::Join { mode, n }) => rest.push((last.id@, mode, n, last.incoming)),
            _ => rest,
        }
    }
}

/// The ids of the `batch` nodes among `nodes`, in order.
pub open spec fn batch_nodes(nodes: Seq<Node>) -> Seq<Seq<char>>
    decreases nodes.len(),
{
    if nodes.len() == 0 {
        Seq::empty()
    } else {
        let rest = batch_nodes(nodes.drop_last());
        match nodes.last().step {
            NodeStep::Control(ControlNode::Batch { .. }) => rest.push(nodes.last().id@),
            _ => rest,
        }
    }
}

/// The ids of the sinks among `nodes`, in order.
pub open spec fn sink_nodes(nodes: Seq<Node>) -> Seq<Seq<char>>
    decreases nodes.len(),
{
    if nodes.len() == 0 {
        Seq::empty()
    } else {
        let rest = sink_nodes(nodes.drop_last());
        match nodes.last().step {
            NodeStep::Sink => rest.push(nodes.last().id@),
            _ => rest,
        }
    }
}

/// The per-node buffers of a run.
#[derive(Debug)]
pub struct NodeScan {
    /// An empty buffer for each `join` node.
    pub joins: Vec<(String, JoinBuffer)>,
    /// An empty buffer for each `batch` node.
    pub batches: Vec<(String, BatchBuffer)>,
    /// The sink ids.
    pub sinks: Vec<String>,
}

/// `scan` holds an empty buffer for each `join` and `batch` node of
/// `nodes` and the ids of its sinks, all in node order.
pub open spec fn fresh_buffers(scan: NodeScan, nodes: Seq<Node>) -> bool {
    &&& scan.joins@.len() == join_nodes(nodes).len()
    &&& forall|i: int| 0 <= i < scan.joins@.len() ==> {
        let (id, buffer) = #[trigger] scan.joins@[i];
        let (jid, mode, n, incoming) = join_nodes(nodes)[i];
        &&& id@ == jid
        &&& buffer.wf()
        &&& buffer.mode == mode
        &&& buffer.n == n
        &&& buffer.expected == incoming
        &&& buffer.groups@.len() == 0
    }
    &&& scan.batches@.len() == batch_nodes(nodes).len()
    &&& forall|i: int| 0 <= i < scan.batches@.len() ==> {
        let (id, buffer) = #[trigger] scan.batches@[i];
        &&& id@ == batch_nodes(nodes)[i]
        &&& buffer.records@.len() == 0
        &&& buffer.since is None
    }
    &&& scan.sinks@.map_values(|s: String| s@) == sink_nodes(nodes)
}

/// Scan the graph for its `join` and `batch` nodes, each with an empty
/// buffer (a `join` expects as many records as routes point at it), and
/// for its sinks.
pub fn scan_nodes(graph: &FlowGraph) -> (r: NodeScan)
    ensures
        fresh_buffers(r, graph.nodes@),
{
    let nodes = &graph.nodes;
    let mut joins: Vec<(String, JoinBuffer)> = Vec::new();
    let mut batches: Vec<(String, BatchBuffer)> = Vec::new();
    let mut sinks: Vec<String> = Vec::new();
    let mut i: usize = 0;
    while i < nodes.len()
        invariant
            i <= nodes@.len(),
            joins@.len() == join_nodes(nodes@.subrange(0, i as int)).len(),
            forall|k: int| 0 <= k < joins@.len() ==> {
                let (id, buffer) = #[trigger] joins@[k];
                let (jid, mode, n, incoming) = join_nodes(nodes@.subrange(0, i as int))[k];
                &&& id@ == jid
                &&& buffer.wf()
                &&& buffer.mode == mode
                &&& buffer.n == n
                &&& buffer.expected == incoming
                &&& buffer.groups@.len() == 0
            },
            batches@.len() == batch_nodes(nodes@.subrange(0, i as int)).len(),
            forall|k: int| 0 <= k < batches@.len() ==> {
                let (id, buffer) = #[trigger] batches@[k];
                &&& id@ == batch_nodes(nodes@.subrange(0, i as int))[k]
                &&& buffer.records@.len() == 0
                &&& buffer.since is None
            },
            sinks@.map_values(|s: String| s@) == sink_nodes(nodes@.subrange(0, i as int)),
        decreases nodes.len() - i,
    {
        let node = &nodes[i];
        let ghost prefix = nodes@.subrange(0, i as int);
        let ghost next = nodes@.subrange(0, i + 1);
        assert(next.drop_last() =~= prefix);
        assert(next.last() == nodes@[i as int]);
        match &node.step {
            NodeStep::Control(ControlNode::Join { mode, n }) => {
                joins.push((node.id.clone(), JoinBuffer::new(*mode, *n, node.incoming)));
            },
            NodeStep::Control(ControlNode::Batch { .. }) => {
                batches.push((node.id.clone(), BatchBuffer::new()));
            },
            NodeStep::Sink => {
                let ghost before = sinks@;
                sinks.push(node.id.clone());
                assert(sinks@.map_values(|s: String| s@) =~= before.map_values(|s: String| s@).push(node.id@));
            },
            _ => {},
        }
        i = i + 1;
    }
    assert(nodes@.subrange(0, nodes@.len() as int) =~= nodes@);
    let r = NodeScan { joins, batches, sinks };
    assert(fresh_buffers(r, graph.nodes@));
    r
}

} // verus!
