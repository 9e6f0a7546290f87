use sohara::plane::agent::{Command, InstanceReport, InstanceSpec, InstanceState};
use sohara::plane::reconcile::desired_command;
use sohara::plane::types::{Desired, InstanceDecl};

fn decl(desired: Desired) -> InstanceDecl {
    let mut spec = InstanceSpec::empty();
    spec.id = "i1".to_owned();
    InstanceDecl { id: "i1".to_owned(), node: "n1".to_owned(), flow_id: None, desired, spec }
}

fn report(state: InstanceState) -> InstanceReport {
    InstanceReport {
        id: "i1".to_owned(),
        state,
        paused: state == InstanceState::Paused,
        healthy: true,
        restarts: 0,
        admin: None,
        trigger: None,
    }
}

#[test]
fn running_desired_against_stopped_actual_starts() {
    let command = desired_command(&decl(Desired::Running), Some(&report(InstanceState::Stopped)), &[]);
    assert_eq!(command.map(|c| c.op), Some("start".to_owned()));
}

#[test]
fn stopped_desired_against_running_actual_stops() {
    let command = desired_command(&decl(Desired::Stopped), Some(&report(InstanceState::Running)), &[]);
    assert_eq!(command.map(|c| c.op), Some("stop".to_owned()));
}

#[test]
fn paused_desired_against_running_actual_pauses() {
    let command = desired_command(&decl(Desired::Paused), Some(&report(InstanceState::Running)), &[]);
    assert_eq!(command.map(|c| c.op), Some("pause".to_owned()));
}

#[test]
fn converged_states_and_unknown_reports_yield_nothing() {
    assert_eq!(desired_command(&decl(Desired::Running), Some(&report(InstanceState::Running)), &[]), None);
    assert_eq!(desired_command(&decl(Desired::Stopped), Some(&report(InstanceState::Stopped)), &[]), None);
    assert_eq!(desired_command(&decl(Desired::Running), None, &[]), None);
}

#[test]
fn pending_duplicate_is_not_reenqueued() {
    let pending = vec![Command { seq: 1, op: "start".to_owned(), instance: "i1".to_owned() }];
    assert_eq!(desired_command(&decl(Desired::Running), Some(&report(InstanceState::Stopped)), &pending), None);
}

#[test]
fn paused_actual_resumes_and_failed_restarts() {
    let resume = desired_command(&decl(Desired::Running), Some(&report(InstanceState::Paused)), &[]);
    assert_eq!(resume.map(|c| c.op), Some("resume".to_owned()));
    let restart = desired_command(&decl(Desired::Running), Some(&report(InstanceState::Failed)), &[]);
    let restart = restart.unwrap();
    assert_eq!(restart.op, "start");
    assert_eq!(restart.seq, 0);
    assert_eq!(restart.instance, "i1");
}
