use editor_backend::registry::{
    advance, LanguageServerProcess, LifecycleEvent, Registry, RegistryError, ServerState,
};
use editor_backend::shutdown::{count_shut_down, stop_step, StopAction, StopEvent, StopOutcome, StopPhase};

fn process(id: &str) -> LanguageServerProcess {
    LanguageServerProcess {
        id: id.to_string(),
        command: "cat".to_string(),
        args: vec![],
        language: "plain".to_string(),
    }
}

fn run_stop(events: &[StopEvent]) -> (StopPhase, Vec<StopAction>) {
    let mut phase = StopPhase::Live;
    let mut actions = Vec::new();
    for e in events {
        let (p, a) = stop_step(phase, *e);
        phase = p;
        actions.push(a);
    }
    (phase, actions)
}

#[test]
fn lifecycle_moves_forward_only() {
    assert_eq!(advance(ServerState::Starting, LifecycleEvent::ReadersAlive), ServerState::Running);
    assert_eq!(advance(ServerState::Running, LifecycleEvent::StreamClosed), ServerState::Crashed);
    assert_eq!(advance(ServerState::Starting, LifecycleEvent::StreamClosed), ServerState::Crashed);
    assert_eq!(advance(ServerState::Running, LifecycleEvent::StopRequested), ServerState::Stopping);
    assert_eq!(advance(ServerState::Stopping, LifecycleEvent::Exited), ServerState::Stopped);
    assert_eq!(advance(ServerState::Crashed, LifecycleEvent::ReadersAlive), ServerState::Crashed);
    assert_eq!(advance(ServerState::Stopped, LifecycleEvent::StopRequested), ServerState::Stopped);
    assert_eq!(advance(ServerState::Running, LifecycleEvent::ReadersAlive), ServerState::Running);
    assert_eq!(advance(ServerState::Running, LifecycleEvent::WriteFailed), ServerState::Degraded);
    assert_eq!(advance(ServerState::Degraded, LifecycleEvent::StreamClosed), ServerState::Crashed);
    assert_eq!(advance(ServerState::Degraded, LifecycleEvent::StopRequested), ServerState::Stopping);
    assert_eq!(advance(ServerState::Starting, LifecycleEvent::WriteFailed), ServerState::Starting);
}

#[test]
fn registry_lookups_and_errors() {
    let mut r = Registry::new();
    assert_eq!(r.insert(process("a")), Ok(()));
    assert_eq!(r.insert(process("a")), Err(RegistryError::DuplicateId));
    assert_eq!(r.check_send(&"b".to_string()), Err(RegistryError::NotFound));
    assert_eq!(r.check_send(&"a".to_string()), Err(RegistryError::NotRunning));
    assert_eq!(r.state_of(&"a".to_string()), Some(ServerState::Starting));
    assert_eq!(r.apply(&"a".to_string(), LifecycleEvent::ReadersAlive), Ok(ServerState::Running));
    assert_eq!(r.check_send(&"a".to_string()), Ok(()));
    assert_eq!(r.apply(&"a".to_string(), LifecycleEvent::StreamClosed), Ok(ServerState::Crashed));
    assert_eq!(r.check_send(&"a".to_string()), Err(RegistryError::NotRunning));
    assert_eq!(r.apply(&"z".to_string(), LifecycleEvent::StreamClosed), Err(RegistryError::NotFound));
    assert!(r.remove(&"a".to_string()).is_some());
    assert!(r.remove(&"a".to_string()).is_none());
    assert_eq!(r.len(), 0);
}

#[test]
fn stop_escalates_to_kill_after_grace_period() {
    let (p, a) = run_stop(&[StopEvent::Begin, StopEvent::Exited]);
    assert_eq!(p, StopPhase::Done(StopOutcome::Graceful));
    assert_eq!(a, vec![StopAction::SendTerminate, StopAction::Reap]);
    let (p, a) = run_stop(&[StopEvent::Begin, StopEvent::GraceElapsed, StopEvent::Exited]);
    assert_eq!(p, StopPhase::Done(StopOutcome::Forced));
    assert_eq!(a, vec![StopAction::SendTerminate, StopAction::ForceKill, StopAction::Reap]);
    let (p, a) = run_stop(&[StopEvent::Begin, StopEvent::GraceElapsed, StopEvent::KillFailed]);
    assert_eq!(p, StopPhase::Done(StopOutcome::Failed));
    assert_eq!(a.last(), Some(&StopAction::Reap));
    assert_eq!(stop_step(StopPhase::Live, StopEvent::Exited), (StopPhase::Live, StopAction::Nothing));
}

#[test]
fn shutdown_all_with_one_stubborn_server() {
    let mut r = Registry::new();
    for id in ["a", "b", "c"] {
        r.insert(process(id)).unwrap();
        r.apply(&id.to_string(), LifecycleEvent::ReadersAlive).unwrap();
    }
    let all = r.drain();
    assert_eq!(all.len(), 3);
    assert_eq!(r.len(), 0);
    let mut outcomes = Vec::new();
    for d in &all {
        let events: Vec<StopEvent> = if d.process.id == "b" {
            vec![StopEvent::Begin, StopEvent::GraceElapsed, StopEvent::Exited]
        } else {
            vec![StopEvent::Begin, StopEvent::Exited]
        };
        match run_stop(&events).0 {
            StopPhase::Done(o) => outcomes.push(o),
            _ => panic!("stop did not finish"),
        }
    }
    assert_eq!(outcomes[1], StopOutcome::Forced);
    assert_eq!(count_shut_down(&outcomes), 3);
}

#[test]
fn failed_stops_do_not_count() {
    let outcomes = [
        StopOutcome::Graceful,
        StopOutcome::Failed,
        StopOutcome::Forced,
        StopOutcome::Failed,
    ];
    assert_eq!(count_shut_down(&outcomes), 2);
    assert_eq!(count_shut_down(&[]), 0);
}
