use vxapo_driver::install::audiodg::{
    after_listing, after_round, endpoint_instance_id, ensure_audio_service_running,
    is_audio_engine, remaining_ms, restart_audio_service, restart_audio_service_wait,
    state_from_code, stop_audio_service, stop_audio_service_with_dependents, EngineWait,
    ServiceState,
};
use vxapo_driver::install::audiodg::run::{RunAction, RunEvent};

fn name() -> String {
    "AudioSrv".to_string()
}

fn state(s: ServiceState) -> RunEvent {
    RunEvent::State(s)
}

#[test]
fn a_stopped_service_is_left_alone() {
    let mut run = stop_audio_service();
    assert_eq!(run.begin(), RunAction::Look(name()));
    assert_eq!(run.next(state(ServiceState::Stopped), 0), RunAction::Finished);
}

#[test]
fn a_running_service_is_stopped_and_waited_for() {
    let mut run = stop_audio_service();
    run.begin();
    assert_eq!(run.next(state(ServiceState::Running), 0), RunAction::SendStop(name()));
    assert_eq!(run.next(state(ServiceState::Other), 10), RunAction::Pause(name()));
    assert_eq!(run.next(state(ServiceState::Other), 500), RunAction::Pause(name()));
    assert_eq!(run.next(state(ServiceState::Stopped), 900), RunAction::Finished);
}

#[test]
fn waiting_for_a_stop_ends() {
    let mut run = stop_audio_service();
    run.begin();
    run.next(state(ServiceState::Running), 0);
    run.next(state(ServiceState::Other), 0);
    assert!(matches!(run.next(state(ServiceState::Other), 30_001), RunAction::Failed(_)));
}

#[test]
fn a_restart_stops_and_starts() {
    let mut run = restart_audio_service();
    run.begin();
    assert_eq!(run.next(state(ServiceState::Stopped), 0), RunAction::SendStart(name()));
    assert_eq!(run.next(RunEvent::Sent, 1), RunAction::Finished);
}

#[test]
fn a_refusal_ends_the_run() {
    let mut run = restart_audio_service();
    run.begin();
    assert_eq!(
        run.next(RunEvent::Refused("no".to_string()), 0),
        RunAction::Failed("no".to_string())
    );
    let mut run = ensure_audio_service_running();
    run.begin();
    assert_eq!(
        run.next(RunEvent::Unavailable("gone".to_string()), 0),
        RunAction::Failed("gone".to_string())
    );
}

#[test]
fn a_running_service_is_not_started_again() {
    let mut run = ensure_audio_service_running();
    assert_eq!(run.begin(), RunAction::Look(name()));
    assert_eq!(run.next(state(ServiceState::Running), 0), RunAction::Finished);
}

#[test]
fn dependents_stop_first() {
    let mut run = stop_audio_service_with_dependents(5);
    assert_eq!(run.begin(), RunAction::ListDependents);
    let list = RunEvent::Dependents(vec!["A".to_string(), "B".to_string()]);
    assert_eq!(run.next(list, 0), RunAction::Look("A".to_string()));
    assert_eq!(
        run.next(RunEvent::Unavailable("gone".to_string()), 0),
        RunAction::Look("B".to_string())
    );
    assert_eq!(run.next(state(ServiceState::Stopped), 0), RunAction::Look(name()));
    assert_eq!(run.next(state(ServiceState::Stopped), 0), RunAction::Finished);
}

#[test]
fn a_full_restart_starts_the_dependents_last() {
    let mut run = restart_audio_service_wait(5, 5);
    assert_eq!(run.begin(), RunAction::ListDependents);
    assert_eq!(run.next(RunEvent::Dependents(Vec::new()), 0), RunAction::Look(name()));
    assert_eq!(run.next(state(ServiceState::Stopped), 0), RunAction::Look(name()));
    assert_eq!(run.next(state(ServiceState::Stopped), 0), RunAction::StartAndLook(name()));
    assert_eq!(run.next(state(ServiceState::Other), 10), RunAction::Pause(name()));
    assert_eq!(run.next(state(ServiceState::Running), 400), RunAction::ListDependents);
    let list = RunEvent::Dependents(vec!["A".to_string()]);
    assert_eq!(run.next(list, 400), RunAction::Look("A".to_string()));
    assert_eq!(run.next(state(ServiceState::Running), 400), RunAction::Finished);
}

#[test]
fn states_are_read_from_their_codes() {
    assert_eq!(state_from_code(1), ServiceState::Stopped);
    assert_eq!(state_from_code(4), ServiceState::Running);
}

#[test]
fn waiting_for_the_engine_is_bounded() {
    assert_eq!(after_listing(0), EngineWait::Left);
    assert_eq!(after_listing(2), EngineWait::Round);
    assert_eq!(after_round(1, true), EngineWait::Round);
    assert_eq!(after_round(2, true), EngineWait::Check);
    assert_eq!(after_round(1, false), EngineWait::Check);
    assert_eq!(remaining_ms(10, 25), 15);
    assert_eq!(remaining_ms(30, 25), 0);
    assert_eq!(remaining_ms(0, u64::MAX), u32::MAX);
    assert!(is_audio_engine("AudioDG.exe"));
    assert!(!is_audio_engine("audiodg"));
}

#[test]
fn endpoint_devices_are_named_by_direction() {
    let g = "{11111111-2222-3333-4444-555555555555}";
    assert_eq!(
        endpoint_instance_id(g, false),
        format!("SWD\\MMDEVAPI\\{{0.0.0.00000000}}.{g}")
    );
    assert_eq!(
        endpoint_instance_id(g, true),
        format!("SWD\\MMDEVAPI\\{{1.0.0.00000000}}.{g}")
    );
}
