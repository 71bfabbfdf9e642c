//! The decisions of the worker thread that owns the sound server connection: how its startup
//! ends, and what it does with each message while connecting and once connected.
use vstd::prelude::*;

verus! {

/// The state of the connection to the sound server, as the server library reports it.
#[derive(Debug, Clone, Copy, PartialEq, Eq, Structural)]
pub enum ContextState {
    Unconnected,
    Connecting,
    Authorizing,
    SettingName,
    Ready,
    Failed,
    Terminated,
}

/// Where the worker thread stands.
#[derive(Debug, Clone, Copy, PartialEq, Eq, Structural)]
pub enum WorkerPhase {
    /// Waiting for the connection to become ready.
    Connecting,
    /// Connected: running the commands it is sent.
    Running,
    /// Finished: the thread ends.
    Stopped,
}

/// A message the worker thread takes from its command channel.
#[derive(Debug, Clone, Copy, PartialEq, Eq, Structural)]
pub enum WorkerEvent {
    /// The connection's state changed; this is the state it now has.
    StateChanged(ContextState),
    /// A command to run on the connection.
    Run,
    /// A request to shut down.
    Shutdown,
    /// Every sender of the command channel is gone.
    ChannelClosed,
}

/// What the worker thread does in one step.
#[derive(Debug, Clone, Copy, PartialEq, Eq, Structural)]
pub enum WorkerAction {
    /// Nothing: the message is dropped.
    Nothing,
    /// Runs the received command on the connection.
    RunCommand,
    /// Disconnects and stops the main loop.
    ShutDown,
}

/// Why the connection did not become ready.
#[derive(Debug, Clone, Copy, PartialEq, Eq, Structural)]
pub enum ReadyError {
    /// The main loop could not be created.
    MainLoopCreation,
    /// The connection context could not be created.
    ContextCreation,
    /// The main loop could not be started.
    MainLoopStart,
    /// Connecting the context failed.
    Connect,
    /// The connection failed or was terminated while it was being set up.
    ConnectionFailed,
    /// The worker was told to shut down, or lost its command channel, before it was ready.
    Disconnected,
}

/// One step of the worker thread: its next phase, what it does, and what (if anything) it
/// reports to whoever waits for the connection to become ready.
#[derive(Debug, Clone, Copy, PartialEq, Eq)]
pub struct WorkerStep {
    pub phase: WorkerPhase,
    pub action: WorkerAction,
    pub report: Option<Result<(), ReadyError>>,
}

/// How a failed startup ends: the error reported, and whether the connection must be shut down
/// first.
#[derive(Debug, Clone, Copy, PartialEq, Eq)]
pub struct StartupFailure {
    pub error: ReadyError,
    pub shut_down: bool,
}

/// Whether `s` is a state the connection cannot leave.
pub open spec fn is_final_state(s: ContextState) -> bool {
    s is Failed || s is Terminated
}

/// Whether `event` reports that the connection failed or was terminated.
pub open spec fn reports_end(event: WorkerEvent) -> bool {
    match event {
        WorkerEvent::StateChanged(s) => is_final_state(s),
        _ => false,
    }
}

/// Whether `event` reports a state that is neither ready nor final.
pub open spec fn reports_progress(event: WorkerEvent) -> bool {
    match event {
        WorkerEvent::StateChanged(s) => !(s is Ready) && !is_final_state(s),
        _ => false,
    }
}

/// Whether `event` ends the worker whatever the phase: a shutdown request or a lost channel.
pub open spec fn ends_worker(event: WorkerEvent) -> bool {
    event is Shutdown || event is ChannelClosed
}

/// Decides what the worker thread does with `event` in `phase`.
///
/// While connecting: a ready connection moves it to running and reports success; a failed or
/// terminated connection, a shutdown request or a lost channel shut it down and report why;
/// anything else (other states, commands) is dropped. While running: commands are run; a
/// failed or terminated connection, a shutdown request or a lost channel shut it down;
/// other state changes are ignored.
pub fn worker_step(phase: WorkerPhase, event: WorkerEvent) -> (r: WorkerStep)
    requires
        !(phase is Stopped),
    ensures
        phase is Connecting && event == WorkerEvent::StateChanged(ContextState::Ready) ==> r == (
        WorkerStep {
            phase: WorkerPhase::Running,
            action: WorkerAction::Nothing,
            report: Some(Ok(())),
        }),
        phase is Connecting && reports_end(event) ==> r == (WorkerStep {
            phase: WorkerPhase::Stopped,
            action: WorkerAction::ShutDown,
            report: Some(Err(ReadyError::ConnectionFailed)),
        }),
        phase is Connecting && ends_worker(event) ==> r == (WorkerStep {
            phase: WorkerPhase::Stopped,
            action: WorkerAction::ShutDown,
            report: Some(Err(ReadyError::Disconnected)),
        }),
        phase is Connecting && (event is Run || reports_progress(event)) ==> r == (WorkerStep {
            phase: WorkerPhase::Connecting,
            action: WorkerAction::Nothing,
            report: None,
        }),
        phase is Running && event is Run ==> r == (WorkerStep {
            phase: WorkerPhase::Running,
            action: WorkerAction::RunCommand,
            report: None,
        }),
        phase is Running && (ends_worker(event) || reports_end(event)) ==> r == (WorkerStep {
            phase: WorkerPhase::Stopped,
            action: WorkerAction::ShutDown,
            report: None,
        }),
        phase is Running && (reports_progress(event) || event == WorkerEvent::StateChanged(
            ContextState::Ready,
        )) ==> r == (WorkerStep {
            phase: WorkerPhase::Running,
            action: WorkerAction::Nothing,
            report: None,
        }),
{
    match phase {
        WorkerPhase::Connecting => match event {
            WorkerEvent::StateChanged(ContextState::Ready) => WorkerStep {
                phase: WorkerPhase::Running,
                action: WorkerAction::Nothing,
                report: Some(Ok(())),
            },
            WorkerEvent::StateChanged(ContextState::Failed)
            | WorkerEvent::StateChanged(ContextState::Terminated) => WorkerStep {
                phase: WorkerPhase::Stopped,
                action: WorkerAction::ShutDown,
                report: Some(Err(ReadyError::ConnectionFailed)),
            },
            WorkerEvent::Shutdown | WorkerEvent::ChannelClosed => WorkerStep {
                phase: WorkerPhase::Stopped,
                action: WorkerAction::ShutDown,
                report: Some(Err(ReadyError::Disconnected)),
            },
            _ => WorkerStep {
                phase: WorkerPhase::Connecting,
                action: WorkerAction::Nothing,
                report: None,
            },
        },
        _ => match event {
            WorkerEvent::Run => WorkerStep {
                phase: WorkerPhase::Running,
                action: WorkerAction::RunCommand,
                report: None,
            },
            WorkerEvent::StateChanged(ContextState::Failed)
            | WorkerEvent::StateChanged(ContextState::Terminated)
            | WorkerEvent::Shutdown
            | WorkerEvent::ChannelClosed => WorkerStep {
                phase: WorkerPhase::Stopped,
                action: WorkerAction::ShutDown,
                report: None,
            },
            _ => WorkerStep {
                phase: WorkerPhase::Running,
                action: WorkerAction::Nothing,
                report: None,
            },
        },
    }
}

/// How the worker's startup ends, given which of its steps succeeded: creating the main loop,
/// creating the context, starting the main loop, and connecting (each step is only tried when
/// the ones before it succeeded). The first failed step gives the error; only a failed connect
/// needs the connection shut down. `None` when every step succeeded.
pub fn startup_report(
    mainloop_created: bool,
    context_created: bool,
    mainloop_started: bool,
    connected: bool,
) -> (r: Option<StartupFailure>)
    ensures
        !mainloop_created ==> r == Some(
            StartupFailure { error: ReadyError::MainLoopCreation, shut_down: false },
        ),
        mainloop_created && !context_created ==> r == Some(
            StartupFailure { error: ReadyError::ContextCreation, shut_down: false },
        ),
        mainloop_created && context_created && !mainloop_started ==> r == Some(
            StartupFailure { error: ReadyError::MainLoopStart, shut_down: false },
        ),
        mainloop_created && context_created && mainloop_started && !connected ==> r == Some(
            StartupFailure { error: ReadyError::Connect, shut_down: true },
        ),
        mainloop_created && context_created && mainloop_started && connected ==> r is None,
{
    if !mainloop_created {
        Some(StartupFailure { error: ReadyError::MainLoopCreation, shut_down: false })
    } else if !context_created {
        Some(StartupFailure { error: ReadyError::ContextCreation, shut_down: false })
    } else if !mainloop_started {
        Some(StartupFailure { error: ReadyError::MainLoopStart, shut_down: false })
    } else if !connected {
        Some(StartupFailure { error: ReadyError::Connect, shut_down: true })
    } else {
        None
    }
}

} // verus!
