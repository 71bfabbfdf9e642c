use deej_rs::pulse::worker::{
    startup_report, worker_step, ContextState, ReadyError, StartupFailure, WorkerAction,
    WorkerEvent, WorkerPhase, WorkerStep,
};

fn step(phase: WorkerPhase, action: WorkerAction, report: Option<Result<(), ReadyError>>) -> WorkerStep {
    WorkerStep {
        phase,
        action,
        report,
    }
}

const PROGRESS_STATES: [ContextState; 4] = [
    ContextState::Unconnected,
    ContextState::Connecting,
    ContextState::Authorizing,
    ContextState::SettingName,
];

#[test]
fn connecting_becomes_running_when_ready() {
    assert_eq!(
        worker_step(WorkerPhase::Connecting, WorkerEvent::StateChanged(ContextState::Ready)),
        step(WorkerPhase::Running, WorkerAction::Nothing, Some(Ok(())))
    );
}

#[test]
fn connecting_fails_when_the_connection_ends() {
    for state in [ContextState::Failed, ContextState::Terminated] {
        assert_eq!(
            worker_step(WorkerPhase::Connecting, WorkerEvent::StateChanged(state)),
            step(
                WorkerPhase::Stopped,
                WorkerAction::ShutDown,
                Some(Err(ReadyError::ConnectionFailed))
            )
        );
    }
}

#[test]
fn connecting_reports_disconnected_on_shutdown_or_lost_channel() {
    for event in [WorkerEvent::Shutdown, WorkerEvent::ChannelClosed] {
        assert_eq!(
            worker_step(WorkerPhase::Connecting, event),
            step(
                WorkerPhase::Stopped,
                WorkerAction::ShutDown,
                Some(Err(ReadyError::Disconnected))
            )
        );
    }
}

#[test]
fn connecting_ignores_commands_and_intermediate_states() {
    let waiting = step(WorkerPhase::Connecting, WorkerAction::Nothing, None);
    assert_eq!(worker_step(WorkerPhase::Connecting, WorkerEvent::Run), waiting);
    for state in PROGRESS_STATES {
        assert_eq!(
            worker_step(WorkerPhase::Connecting, WorkerEvent::StateChanged(state)),
            waiting
        );
    }
}

#[test]
fn running_runs_commands() {
    assert_eq!(
        worker_step(WorkerPhase::Running, WorkerEvent::Run),
        step(WorkerPhase::Running, WorkerAction::RunCommand, None)
    );
}

#[test]
fn running_stops_on_end_of_connection_shutdown_or_lost_channel() {
    let stop = step(WorkerPhase::Stopped, WorkerAction::ShutDown, None);
    for event in [
        WorkerEvent::StateChanged(ContextState::Failed),
        WorkerEvent::StateChanged(ContextState::Terminated),
        WorkerEvent::Shutdown,
        WorkerEvent::ChannelClosed,
    ] {
        assert_eq!(worker_step(WorkerPhase::Running, event), stop);
    }
}

#[test]
fn running_ignores_other_state_changes() {
    let keep = step(WorkerPhase::Running, WorkerAction::Nothing, None);
    assert_eq!(
        worker_step(WorkerPhase::Running, WorkerEvent::StateChanged(ContextState::Ready)),
        keep
    );
    for state in PROGRESS_STATES {
        assert_eq!(worker_step(WorkerPhase::Running, WorkerEvent::StateChanged(state)), keep);
    }
}

#[test]
fn startup_reports_the_first_failed_step() {
    let fail = |error, shut_down| Some(StartupFailure { error, shut_down });
    assert_eq!(
        startup_report(false, false, false, false),
        fail(ReadyError::MainLoopCreation, false)
    );
    assert_eq!(
        startup_report(false, true, true, true),
        fail(ReadyError::MainLoopCreation, false)
    );
    assert_eq!(
        startup_report(true, false, true, true),
        fail(ReadyError::ContextCreation, false)
    );
    assert_eq!(
        startup_report(true, true, false, true),
        fail(ReadyError::MainLoopStart, false)
    );
    assert_eq!(startup_report(true, true, true, false), fail(ReadyError::Connect, true));
    assert_eq!(startup_report(true, true, true, true), None);
}
