//! Bookkeeping for PulseAudio event subscriptions: interest masks and the dispatcher that
//! routes events to the subscriptions interested in them.
use vstd::prelude::*;

pub mod channel;
pub mod dispatcher;
pub mod types;
pub mod worker;

verus! {

} // verus!
