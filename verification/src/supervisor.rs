//! The decisions of the supervisor that keeps the service running: what it does when the
//! configuration file changes, when shutdown is requested, and when the service ends by itself.
use vstd::prelude::*;

use crate::config::ServiceConfig;

verus! {

/// What the supervisor waited for and got.
#[derive(Debug)]
pub enum SupervisorEvent {
    /// The configuration file changed: its new contents, or `None` when it could not be read or
    /// parsed.
    ConfigChanged(Option<ServiceConfig>),
    /// Shutdown was requested.
    ShutdownRequested,
    /// The service ended by itself.
    ServiceExited,
}

/// What the supervisor does next.
#[derive(Debug)]
pub enum SupervisorAction {
    /// Stop the running service and start it again with this configuration.
    Restart(ServiceConfig),
    /// Leave the running service as it is and keep waiting.
    KeepRunning,
    /// Wait for the service to finish its shutdown, then stop.
    Stop,
    /// Stop, handing on how the service ended.
    ReturnServiceResult,
}

/// Decides what the supervisor does after `event`: a changed configuration that loaded restarts
/// the service with it, one that did not load leaves the running service alone, a shutdown
/// request stops, and a service that ended by itself has its result handed on.
pub fn supervisor_step(event: SupervisorEvent) -> (a: SupervisorAction)
    ensures
        event matches SupervisorEvent::ConfigChanged(Some(c)) ==> a == SupervisorAction::Restart(c),
        event matches SupervisorEvent::ConfigChanged(None) ==> a is KeepRunning,
        event is ShutdownRequested ==> a is Stop,
        event is ServiceExited ==> a is ReturnServiceResult,
{
    match event {
        SupervisorEvent::ConfigChanged(Some(config)) => SupervisorAction::Restart(config),
        SupervisorEvent::ConfigChanged(None) => SupervisorAction::KeepRunning,
        SupervisorEvent::ShutdownRequested => SupervisorAction::Stop,
        SupervisorEvent::ServiceExited => SupervisorAction::ReturnServiceResult,
    }
}

} // verus!
