//! Walking records through the graph: which node runs a record, whether a
//! condition lets it through, and which routes it takes next.

use vstd::prelude::*;

use crate::runtime::node::{Node, NodeStep};
use crate::runtime::routes::Route;

verus! {

/// What a condition's evaluation lets happen.
#[derive(Debug, Clone, Copy, PartialEq, Eq, Structural)]
pub enum Gate {
    /// The condition held (or there is none): go on.
    Pass,
    /// The condition did not hold: drop the record quietly.
    Skip,
    /// The condition could not be evaluated: count an error, drop the record.
    Error,
}

/// What a condition lets happen: `verdict` is the condition's value,
/// `None` when evaluating it failed.
pub open spec fn gate_of(has_condition: bool, verdict: Option<bool>) -> Gate {
    if !has_condition {
        Gate::Pass
    } else {
        match verdict {
            Some(true) => Gate::Pass,
            Some(false) => Gate::Skip,
            None => Gate::Error,
        }
    }
}

/// Decide whether a record goes on past a condition: `verdict` is the
/// condition's value, `None` when evaluating it failed.
pub fn gate(has_condition: bool, verdict: Option<bool>) -> (r: Gate)
    ensures
        r == gate_of(has_condition, verdict),
{
    if !has_condition {
        return Gate::Pass;
    }
    match verdict {
        Some(true) => Gate::Pass,
        Some(false) => Gate::Skip,
        None => Gate::Error,
    }
}

/// What a node does with a record that passed its condition.
#[derive(Debug, Clone, Copy, PartialEq, Eq, Structural)]
pub enum WalkAction {
    /// The target node does not exist: drop the record with a warning.
    UnknownNode,
    /// Deliver to the sink, unless it was delivered before (a duplicate).
    Deliver,
    /// Skip a record delivered in an earlier attempt.
    Duplicate,
    /// Run the transform.
    Transform,
    /// Apply the control node.
    Control,
    /// A source passes the record on along its routes.
    Route,
}

/// Decide what a node does with a record; `delivered` says whether the
/// record was already delivered in an earlier attempt of the run.
pub fn walk_action(node: Option<&Node>, delivered: bool) -> (r: WalkAction)
    ensures
        match node {
            None => r == WalkAction::UnknownNode,
            Some(n) => match n.step {
                NodeStep::Sink => r == if delivered {
                    WalkAction::Duplicate
                } else {
                    WalkAction::Deliver
                },
                NodeStep::Transform => r == WalkAction::Transform,
                NodeStep::Control(_) => r == WalkAction::Control,
                NodeStep::Source => r == WalkAction::Route,
            },
        },
{
    match node {
        None => WalkAction::UnknownNode,
        Some(n) => match &n.step {
            NodeStep::Sink => if delivered {
                WalkAction::Duplicate
            } else {
                WalkAction::Deliver
            },
            NodeStep::Transform => WalkAction::Transform,
            NodeStep::Control(_) => WalkAction::Control,
            NodeStep::Source => WalkAction::Route,
        },
    }
}

/// The routes a record takes, in order: those without a condition and those
/// whose condition held (`verdicts[i]` is the evaluation of route `i`'s
/// condition, `None` when it failed).
pub open spec fn taken(routes: Seq<Route>, verdicts: Seq<Option<bool>>) -> Seq<String>
    decreases routes.len(),
{
    if routes.len() == 0 {
        Seq::empty()
    } else {
        let k = routes.len() - 1;
        taken(routes.drop_last(), verdicts) + if routes[k].when is None || (k < verdicts.len() && verdicts[k] == Some(true)) {
            seq![routes[k].to]
        } else {
            Seq::empty()
        }
    }
}

/// The routes a record takes next.
pub fn routes_taken(routes: &Vec<Route>, verdicts: &Vec<Option<bool>>) -> (r: Vec<String>)
    ensures
        r@ == taken(routes@, verdicts@),
{
    let mut r: Vec<String> = Vec::new();
    let mut i: usize = 0;
    while i < routes.len()
        invariant
            i <= routes@.len(),
            r@ == taken(routes@.subrange(0, i as int), verdicts@),
        decreases routes.len() - i,
    {
        assert(routes@.subrange(0, i + 1).drop_last() =~= routes@.subrange(0, i as int));
        let take = match &routes[i].when {
            None => true,
            Some(_) => i < verdicts.len() && match verdicts[i] {
                Some(v) => v,
                None => false,
            },
        };
        if take {
            r.push(routes[i].to.clone());
        }
        assert(r@ =~= taken(routes@.subrange(0, i + 1), verdicts@));
        i = i + 1;
    }
    assert(routes@.subrange(0, routes@.len() as int) =~= routes@);
    r
}

} // verus!
