//! Verified core of a physical volume-slider controller: slider frame parsing,
//! noise smoothing, volume bookkeeping, configuration resolution and the
//! subscription bookkeeping of the PulseAudio event dispatcher.
use vstd::prelude::*;

pub mod audio;
pub mod config;
pub mod pulse;
pub mod serial_policy;
pub mod service;
pub mod slider;
pub mod supervisor;
pub mod text;

verus! {

} // verus!
