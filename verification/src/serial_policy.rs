//! The reconnection policy of the serial reader: when it connects again, how long it waits
//! first, and when it stops.
use vstd::prelude::*;

verus! {

/// How long the serial reader waits, in milliseconds, before connecting again after the
/// connection ended.
pub const RECONNECT_DELAY_MS: u64 = 2000;

/// What the serial reader waited for and got.
#[derive(Debug, Clone, Copy, PartialEq, Eq, Structural)]
pub enum SerialEvent {
    /// The connection to the board ended (lost, closed, or could not be opened).
    StreamEnded,
    /// The wait before reconnecting is over.
    DelayElapsed,
    /// Shutdown was requested.
    Shutdown,
}

/// What the serial reader does next.
#[derive(Debug, Clone, Copy, PartialEq, Eq, Structural)]
pub enum SerialAction {
    /// Wait this many milliseconds (or until shutdown).
    WaitMs(u64),
    /// Open the port again and read frames from it (until it ends or shutdown).
    Reconnect,
    /// Stop reading.
    Stop,
}

/// Decides what the serial reader does after `event`: an ended connection is retried after
/// [`RECONNECT_DELAY_MS`], the end of that wait reconnects, and shutdown stops it.
pub fn serial_step(event: SerialEvent) -> (a: SerialAction)
    ensures
        event is StreamEnded ==> a == SerialAction::WaitMs(RECONNECT_DELAY_MS),
        event is DelayElapsed ==> a is Reconnect,
        event is Shutdown ==> a is Stop,
{
    match event {
        SerialEvent::StreamEnded => SerialAction::WaitMs(RECONNECT_DELAY_MS),
        SerialEvent::DelayElapsed => SerialAction::Reconnect,
        SerialEvent::Shutdown => SerialAction::Stop,
    }
}

} // verus!
