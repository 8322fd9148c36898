use oe4::agent::{
    abort_begin, abort_finish, poll_ready, worker_next, AbortAction, AgentPhase, Repeat,
    WorkerAction, WorkerEvent,
};
use std::time::Duration;

#[test]
fn worker_steps_after_setup_unless_aborted() {
    assert!(matches!(worker_next(false, WorkerEvent::SetupDone), WorkerAction::Step));
    assert!(matches!(worker_next(true, WorkerEvent::SetupDone), WorkerAction::Stop));
}

#[test]
fn worker_steps_after_resuming_unless_aborted() {
    assert!(matches!(worker_next(false, WorkerEvent::Resumed), WorkerAction::Step));
    assert!(matches!(worker_next(true, WorkerEvent::Resumed), WorkerAction::Stop));
}

#[test]
fn worker_follows_what_the_step_asked() {
    for aborted in [false, true] {
        assert!(matches!(
            worker_next(aborted, WorkerEvent::Stepped(Repeat::Never)),
            WorkerAction::Stop
        ));
        assert!(matches!(
            worker_next(aborted, WorkerEvent::Stepped(Repeat::Auto)),
            WorkerAction::Yield
        ));
        match worker_next(aborted, WorkerEvent::Stepped(Repeat::After(Duration::from_secs(3)))) {
            WorkerAction::Sleep(d) => assert_eq!(d, Duration::from_secs(3)),
            _ => panic!("expected a sleep"),
        }
    }
}

#[test]
fn only_the_first_abort_tears_down() {
    let (first, phase) = abort_begin(AgentPhase::Running);
    assert!(matches!(first, AbortAction::TeardownAndCancel));
    assert!(matches!(phase, AgentPhase::TearingDown));
    let (second, same) = abort_begin(phase);
    assert!(matches!(second, AbortAction::Nothing));
    assert!(matches!(same, AgentPhase::TearingDown));
    let done = abort_finish(same);
    assert!(matches!(done, AgentPhase::Aborted));
    let (third, after) = abort_begin(done);
    assert!(matches!(third, AbortAction::Nothing));
    assert!(matches!(after, AgentPhase::Aborted));
}

#[test]
fn agent_is_ready_only_after_teardown() {
    assert!(!poll_ready(&AgentPhase::Running));
    let (_, tearing) = abort_begin(AgentPhase::Running);
    assert!(!poll_ready(&tearing));
    assert!(poll_ready(&abort_finish(tearing)));
}

#[test]
fn phase_codes_round_trip() {
    for p in [AgentPhase::Running, AgentPhase::TearingDown, AgentPhase::Aborted] {
        let c = p.code();
        assert!(AgentPhase::from_code(c) == p);
    }
    assert!(AgentPhase::from_code(7) == AgentPhase::Aborted);
    assert!(AgentPhase::Aborted.is_aborted());
    assert!(!AgentPhase::TearingDown.is_aborted());
}

#[test]
fn worker_run_steps_sleeps_and_stops() {
    let mut events = vec![WorkerEvent::SetupDone];
    let mut actions = Vec::new();
    let results = vec![Repeat::After(Duration::from_millis(5)), Repeat::Auto, Repeat::Never];
    let mut results = results.into_iter();
    loop {
        let event = events.pop().unwrap();
        let action = worker_next(false, event);
        let next = match &action {
            WorkerAction::Step => Some(WorkerEvent::Stepped(results.next().unwrap())),
            WorkerAction::Yield | WorkerAction::Sleep(_) => Some(WorkerEvent::Resumed),
            WorkerAction::Stop => None,
        };
        actions.push(action);
        match next {
            Some(e) => events.push(e),
            None => break,
        }
    }
    assert_eq!(actions.len(), 6);
    assert!(matches!(actions[0], WorkerAction::Step));
    assert!(matches!(actions[1], WorkerAction::Sleep(d) if d == Duration::from_millis(5)));
    assert!(matches!(actions[2], WorkerAction::Step));
    assert!(matches!(actions[3], WorkerAction::Yield));
    assert!(matches!(actions[4], WorkerAction::Step));
    assert!(matches!(actions[5], WorkerAction::Stop));
}
