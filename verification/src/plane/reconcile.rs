//! Desired/actual reconciliation: which command moves an instance toward
//! its desired state.

use vstd::prelude::*;

use crate::plane::agent::{Command, CommandView, InstanceReport, InstanceState};
use crate::plane::types::{Desired, InstanceDecl};
use crate::text::str_eq;

verus! {

/// The operation that moves an instance in `state` toward `desired`, if any.
pub open spec fn reconcile_op(desired: Desired, state: InstanceState) -> Option<Seq<char>> {
    match (desired, state) {
        (Desired::Running, InstanceState::Stopped) => Some("start"@),
        (Desired::Running, InstanceState::Failed) => Some("start"@),
        (Desired::Running, InstanceState::Paused) => Some("resume"@),
        (Desired::Paused, InstanceState::Running) => Some("pause"@),
        (Desired::Paused, InstanceState::Stopped) => Some("start"@),
        (Desired::Paused, InstanceState::Failed) => Some("start"@),
        (Desired::Stopped, InstanceState::Running) => Some("stop"@),
        (Desired::Stopped, InstanceState::Paused) => Some("stop"@),
        (Desired::Stopped, InstanceState::Starting) => Some("stop"@),
        (Desired::Stopped, InstanceState::Restarting) => Some("stop"@),
        _ => None,
    }
}

/// Whether a command with this instance and operation is already queued.
pub open spec fn already_pending(pending: Seq<CommandView>, instance: Seq<char>, op: Seq<char>) -> bool {
    exists|i: int| 0 <= i < pending.len() && #[trigger] pending[i].instance == instance && pending[i].op == op
}

/// The operation to enqueue for an instance with the given reported state
/// (`None` when the node did not report it), unless the same command is
/// already pending.
pub open spec fn planned_op(
    instance: Seq<char>,
    desired: Desired,
    actual: Option<InstanceState>,
    pending: Seq<CommandView>,
) -> Option<Seq<char>> {
    match actual {
        None => None,
        Some(state) => match reconcile_op(desired, state) {
            None => None,
            Some(op) => if already_pending(pending, instance, op) {
                None
            } else {
                Some(op)
            },
        },
    }
}

/// The views of a sequence of commands.
pub open spec fn commands_view(s: Seq<Command>) -> Seq<CommandView> {
    s.map_values(|c: Command| c@)
}

/// The first report in `reports` about instance `id`.
pub open spec fn report_for(reports: Seq<InstanceReport>, id: Seq<char>) -> Option<InstanceReport>
    decreases reports.len(),
{
    if reports.len() == 0 {
        None
    } else if reports[0].id@ == id {
        Some(reports[0])
    } else {
        report_for(reports.drop_first(), id)
    }
}

/// The reported state of instance `id`, if reported.
pub open spec fn reported_state(reports: Seq<InstanceReport>, id: Seq<char>) -> Option<InstanceState> {
    match report_for(reports, id) {
        Some(r) => Some(r.state),
        None => None,
    }
}

/// The position of the first report about instance `id`.
pub fn find_report(reports: &[InstanceReport], id: &str) -> (r: Option<usize>)
    ensures
        match r {
            Some(i) => i < reports@.len() && report_for(reports@, id@) == Some(reports@[i as int]),
            None => report_for(reports@, id@) is None,
        },
{
    let mut i: usize = 0;
    assert(reports@.subrange(0, reports@.len() as int) =~= reports@);
    while i < reports.len()
        invariant
            i <= reports@.len(),
            report_for(reports@, id@) == report_for(reports@.subrange(i as int, reports@.len() as int), id@),
        decreases reports.len() - i,
    {
        let ghost rest = reports@.subrange(i as int, reports@.len() as int);
        assert(rest.drop_first() =~= reports@.subrange(i + 1, reports@.len() as int));
        if str_eq(reports[i].id.as_str(), id) {
            return Some(i);
        }
        i = i + 1;
    }
    None
}

/// Whether a command for `instance` with operation `op` is queued.
fn is_pending(pending: &[Command], instance: &str, op: &str) -> (r: bool)
    ensures
        r == already_pending(commands_view(pending@), instance@, op@),
{
    let ghost pv = commands_view(pending@);
    let mut i: usize = 0;
    while i < pending.len()
        invariant
            i <= pending@.len(),
            pv == commands_view(pending@),
            forall|j: int| 0 <= j < i ==> !(#[trigger] pv[j].instance == instance@ && pv[j].op == op@),
        decreases pending.len() - i,
    {
        if str_eq(pending[i].instance.as_str(), instance) && str_eq(pending[i].op.as_str(), op) {
            assert(pv[i as int].instance == instance@ && pv[i as int].op == op@);
            return true;
        }
        i = i + 1;
    }
    false
}

/// The command that moves an instance toward its desired state, if any.
///
/// Nothing is returned when the node has not reported the instance, when
/// the reported state already matches, or when the same command is still
/// pending. The returned command carries sequence number 0; the caller
/// numbers it when enqueueing.
pub fn desired_command(
    decl: &InstanceDecl,
    actual: Option<&InstanceReport>,
    pending: &[Command],
) -> (r: Option<Command>)
    ensures
        match r {
            Some(c) => {
                &&& planned_op(
                    decl.id@,
                    decl.desired,
                    match actual {
                        Some(a) => Some(a.state),
                        None => None,
                    },
                    commands_view(pending@),
                ) == Some(c.op@)
                &&& c.seq == 0
                &&& c.instance@ == decl.id@
            },
            None => planned_op(
                decl.id@,
                decl.desired,
                match actual {
                    Some(a) => Some(a.state),
                    None => None,
                },
                commands_view(pending@),
            ) is None,
        },
{
    let actual = match actual {
        Some(a) => a,
        None => return None,
    };
    let op: &str = match (decl.desired, actual.state) {
        (Desired::Running, InstanceState::Stopped) => "start",
        (Desired::Running, InstanceState::Failed) => "start",
        (Desired::Running, InstanceState::Paused) => "resume",
        (Desired::Paused, InstanceState::Running) => "pause",
        (Desired::Paused, InstanceState::Stopped) => "start",
        (Desired::Paused, InstanceState::Failed) => "start",
        (Desired::Stopped, InstanceState::Running) => "stop",
        (Desired::Stopped, InstanceState::Paused) => "stop",
        (Desired::Stopped, InstanceState::Starting) => "stop",
        (Desired::Stopped, InstanceState::Restarting) => "stop",
        _ => return None,
    };
    assert(reconcile_op(decl.desired, actual.state) == Some(op@));
    if is_pending(pending, decl.id.as_str(), op) {
        return None;
    }
    Some(Command { seq: 0, op: op.to_owned(), instance: decl.id.clone() })
}

/// An instance that should be stopped and reports a live state (running,
/// paused, starting or restarting) is sent `stop`, unless a `stop` for it
/// is already pending.
pub proof fn live_instances_are_stopped(instance: Seq<char>, state: InstanceState, pending: Seq<CommandView>)
    requires
        state == InstanceState::Running || state == InstanceState::Paused || state == InstanceState::Starting
            || state == InstanceState::Restarting,
    ensures
        !already_pending(pending, instance, "stop"@) ==> planned_op(instance, Desired::Stopped, Some(state), pending)
            == Some("stop"@),
        already_pending(pending, instance, "stop"@) ==> planned_op(instance, Desired::Stopped, Some(state), pending)
            is None,
{
}

/// An instance that should run is sent `start` when it reports stopped or
/// failed and `resume` when it reports paused; one that should be paused is
/// sent `pause` when it reports running and `start` when it reports stopped
/// or failed. Each only when the same command is not already pending.
pub proof fn running_and_paused_targets_are_reached(instance: Seq<char>, state: InstanceState, pending: Seq<CommandView>)
    ensures
        (state == InstanceState::Stopped || state == InstanceState::Failed) ==> {
            &&& planned_op(instance, Desired::Running, Some(state), pending) == if already_pending(pending, instance, "start"@) {
                None
            } else {
                Some("start"@)
            }
            &&& planned_op(instance, Desired::Paused, Some(state), pending) == if already_pending(pending, instance, "start"@) {
                None
            } else {
                Some("start"@)
            }
        },
        state == InstanceState::Paused ==> planned_op(instance, Desired::Running, Some(state), pending) == if already_pending(
            pending,
            instance,
            "resume"@,
        ) {
            None
        } else {
            Some("resume"@)
        },
        state == InstanceState::Running ==> planned_op(instance, Desired::Paused, Some(state), pending) == if already_pending(
            pending,
            instance,
            "pause"@,
        ) {
            None
        } else {
            Some("pause"@)
        },
{
}

/// No command is planned for an instance its node did not report, nor for
/// one already in its desired state, nor while it is starting or
/// restarting toward running or paused; a failed instance that should be
/// stopped is left alone.
pub proof fn settled_instances_get_no_command(instance: Seq<char>, desired: Desired, state: InstanceState, pending: Seq<CommandView>)
    ensures
        planned_op(instance, desired, None, pending) is None,
        (desired == Desired::Running && state == InstanceState::Running) ==> planned_op(instance, desired, Some(state), pending) is None,
        (desired == Desired::Paused && state == InstanceState::Paused) ==> planned_op(instance, desired, Some(state), pending) is None,
        (desired == Desired::Stopped && (state == InstanceState::Stopped || state == InstanceState::Failed))
            ==> planned_op(instance, desired, Some(state), pending) is None,
        (desired != Desired::Stopped && (state == InstanceState::Starting || state == InstanceState::Restarting))
            ==> planned_op(instance, desired, Some(state), pending) is None,
{
}

} // verus!
