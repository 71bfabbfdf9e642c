//! Volume targets, normalized volumes and the errors an audio backend reports.
use vstd::prelude::*;
use vstd::string::*;

pub mod pulseaudio;
pub mod volume_registry;

verus! {

/// What a slider controls.
#[derive(Debug, PartialEq, Eq, Hash)]
pub enum VolumeTarget {
    /// The master output.
    Master,
    /// The microphone input.
    Mic,
    /// The audio of one application, by process name.
    Process(String),
    /// Every application not bound to another slider.
    Unmapped,
}

/// The name a target is shown under: `master`, `mic`, the process name, or `deej.unmapped`.
pub open spec fn target_name(target: VolumeTarget) -> Seq<char> {
    match target {
        VolumeTarget::Master => "master"@,
        VolumeTarget::Mic => "mic"@,
        VolumeTarget::Process(name) => name@,
        VolumeTarget::Unmapped => "deej.unmapped"@,
    }
}

/// Whether two targets denote the same volume slot (processes by name).
pub open spec fn same_slot(a: VolumeTarget, b: VolumeTarget) -> bool {
    match (a, b) {
        (VolumeTarget::Master, VolumeTarget::Master) => true,
        (VolumeTarget::Mic, VolumeTarget::Mic) => true,
        (VolumeTarget::Unmapped, VolumeTarget::Unmapped) => true,
        (VolumeTarget::Process(x), VolumeTarget::Process(y)) => x@ == y@,
        _ => false,
    }
}

impl Clone for VolumeTarget {
    fn clone(&self) -> (r: Self)
        ensures
            r == *self,
    {
        match self {
            VolumeTarget::Master => VolumeTarget::Master,
            VolumeTarget::Mic => VolumeTarget::Mic,
            VolumeTarget::Process(name) => VolumeTarget::Process(name.clone()),
            VolumeTarget::Unmapped => VolumeTarget::Unmapped,
        }
    }
}

impl VolumeTarget {
    /// The name the target is shown under.
    pub fn name(&self) -> (r: String)
        ensures
            r@ == target_name(*self),
    {
        match self {
            VolumeTarget::Master => String::from_str("master"),
            VolumeTarget::Mic => String::from_str("mic"),
            VolumeTarget::Process(name) => name.clone(),
            VolumeTarget::Unmapped => String::from_str("deej.unmapped"),
        }
    }
}

/// A failure to set the volume of a target, with an optional explanation and the text of the
/// error that caused it, if any.
#[derive(Debug)]
pub struct AudioAdapterError {
    target: VolumeTarget,
    message: Option<String>,
    source: Option<String>,
}

/// `": "` followed by `text`, when there is a text.
pub open spec fn detail(text: Option<String>) -> Seq<char> {
    match text {
        Some(t) => ": "@ + t@,
        None => Seq::empty(),
    }
}

impl AudioAdapterError {
    /// The target whose volume could not be set.
    pub closed spec fn failed_target(&self) -> VolumeTarget {
        self.target
    }

    /// The explanation, if any.
    pub closed spec fn explanation(&self) -> Option<String> {
        self.message
    }

    /// The text of the causing error, if any.
    pub closed spec fn cause(&self) -> Option<String> {
        self.source
    }

    /// An error for `target` caused by an error whose text is `source`.
    pub fn new(target: VolumeTarget, source: String) -> (r: Self)
        ensures
            r.failed_target() == target,
            r.explanation() is None,
            r.cause() == Some(source),
    {
        AudioAdapterError { target, message: None, source: Some(source) }
    }

    /// An error for `target` explained by `message`, with no causing error.
    pub fn without_source(target: VolumeTarget, message: String) -> (r: Self)
        ensures
            r.failed_target() == target,
            r.explanation() == Some(message),
            r.cause() is None,
    {
        AudioAdapterError { target, message: Some(message), source: None }
    }

    /// The same error, explained by `message`.
    pub fn with_message(self, message: String) -> (r: Self)
        ensures
            r.failed_target() == self.failed_target(),
            r.explanation() == Some(message),
            r.cause() == self.cause(),
    {
        AudioAdapterError { target: self.target, message: Some(message), source: self.source }
    }

    /// The target whose volume could not be set.
    pub fn target(&self) -> (r: &VolumeTarget)
        ensures
            *r == self.failed_target(),
    {
        &self.target
    }

    /// The text of the causing error, if any.
    pub fn source(&self) -> (r: Option<&String>)
        ensures
            r matches Some(s) ==> self.cause() == Some(*s),
            r is None <==> self.cause() is None,
    {
        match &self.source {
            Some(s) => Some(s),
            None => None,
        }
    }

    /// The error as text: `failed to set volume for <target>`, then `: <explanation>` and
    /// `: <cause>` for those that are present.
    pub fn describe(&self) -> (r: String)
        ensures
            r@ == "failed to set volume for "@ + target_name(self.failed_target()) + detail(
                self.explanation(),
            ) + detail(self.cause()),
    {
        let mut out = String::from_str("failed to set volume for ");
        let name = self.target.name();
        out.append(name.as_str());
        match &self.message {
            Some(m) => {
                out.append(": ");
                out.append(m.as_str());
            },
            None => {},
        }
        match &self.source {
            Some(src) => {
                out.append(": ");
                out.append(src.as_str());
            },
            None => {},
        }
        out
    }
}

/// An audio backend that only reports what it would do.
#[derive(Debug, Default)]
pub struct DummyAudioAdapter;

/// Number of units that make up a full (100%) volume.
///
/// A [`NormalizedVolume`] is a fixed-point fraction: `value / SCALE` is the
/// volume as a fraction of the maximum, so `0` is 0% and `SCALE` is 100%.
pub const SCALE: u32 = 1_000_000;

/// A volume as a fraction of the maximum, always within `[0, SCALE]`.
#[derive(Debug, Clone, Copy, PartialEq, Eq, Hash, PartialOrd, Ord)]
pub struct NormalizedVolume {
    value: u32,
}

impl View for NormalizedVolume {
    type V = nat;

    closed spec fn view(&self) -> nat {
        self.value as nat
    }
}

impl NormalizedVolume {
    #[verifier::type_invariant]
    spec fn inv(self) -> bool {
        self.value <= SCALE
    }

    /// The silent volume (0%).
    pub fn min() -> (r: Self)
        ensures
            r@ == 0,
    {
        NormalizedVolume { value: 0 }
    }

    /// The full volume (100%).
    pub fn max() -> (r: Self)
        ensures
            r@ == SCALE,
    {
        NormalizedVolume { value: SCALE }
    }

    /// Creates a volume from `value` units, failing when it is outside `[0, SCALE]`.
    pub fn new(value: i64) -> (r: Option<Self>)
        ensures
            r is Some <==> 0 <= value <= SCALE,
            r matches Some(v) ==> v@ == value,
    {
        if 0 <= value && value <= SCALE as i64 {
            Some(NormalizedVolume { value: value as u32 })
        } else {
            None
        }
    }

    /// Creates a volume from `value` units, saturating to `[0, SCALE]`.
    pub fn clamped(value: i64) -> (r: Self)
        ensures
            r@ == clamp_units(value as int),
    {
        if value < 0 {
            NormalizedVolume { value: 0 }
        } else if value > SCALE as i64 {
            NormalizedVolume { value: SCALE }
        } else {
            NormalizedVolume { value: value as u32 }
        }
    }

    /// Creates a volume from `value` units that are known to be in range.
    pub(crate) fn from_units(value: u32) -> (r: Self)
        requires
            value <= SCALE,
        ensures
            r@ == value,
    {
        NormalizedVolume { value }
    }

    /// The volume in units of `1 / SCALE`.
    pub fn get(self) -> (r: u32)
        ensures
            r == self@,
            r <= SCALE,
    {
        proof {
            use_type_invariant(self);
        }
        self.value
    }
}

/// `value` saturated to the range `[0, SCALE]`.
pub open spec fn clamp_units(value: int) -> nat {
    if value < 0 {
        0
    } else if value > SCALE {
        SCALE as nat
    } else {
        value as nat
    }
}

} // verus!
