//! The decisions of the PulseAudio backend: what a volume request asks of the sound server.
use vstd::prelude::*;
use vstd::string::*;

use crate::audio::volume_registry::{registers, VolumeRegistry};
use crate::audio::{AudioAdapterError, NormalizedVolume, VolumeTarget, SCALE};

verus! {

/// The sound server's raw volume for 100% (`PA_VOLUME_NORM`).
pub const VOLUME_NORM: u32 = 0x10000;

/// The sound server's raw volume for `v` units of `1 / SCALE`: `v / SCALE` of
/// [`VOLUME_NORM`], rounded to the nearest integer (halves up).
pub open spec fn pulse_volume(v: nat) -> nat {
    (v * (VOLUME_NORM as nat) + (SCALE as nat) / 2) / (SCALE as nat)
}

/// The raw volume is the normalized volume scaled to [`VOLUME_NORM`] and rounded to the
/// nearest integer: for every volume up to full, `pulse_volume(v)` times `SCALE` lies within
/// half of `SCALE` of `v` times `VOLUME_NORM`; silence is `0` and full volume `VOLUME_NORM`;
/// and a louder volume never gives a lower raw volume.
pub proof fn lemma_pulse_volume_nearest(v: nat, w: nat)
    requires
        v <= SCALE,
    ensures
        pulse_volume(v) * SCALE <= v * VOLUME_NORM + SCALE / 2,
        v * VOLUME_NORM < pulse_volume(v) * SCALE + SCALE / 2,
        pulse_volume(v) <= VOLUME_NORM,
        pulse_volume(0) == 0,
        pulse_volume(SCALE as nat) == VOLUME_NORM,
        v <= w ==> pulse_volume(v) <= pulse_volume(w),
{
    let s = SCALE as int;
    let a = (v * (VOLUME_NORM as nat) + (SCALE as nat) / 2) as int;
    lemma_nearest_div(a, s);
    let r = pulse_volume(v);
    assert(r == a / s);
    assert(r * SCALE == s * (a / s)) by (nonlinear_arith)
        requires
            r == a / s,
            s == SCALE,
    ;
    assert(v * 0x10000 + 500_000 <= 0x10000 * 1_000_000 + 500_000) by (nonlinear_arith)
        requires
            v <= 1_000_000,
    ;
    assert((v * 0x10000 + 500_000) / 1_000_000 <= 0x10000) by (nonlinear_arith)
        requires
            v <= 1_000_000,
    ;
    if v <= w {
        assert((v * 0x10000 + 500_000) / 1_000_000 <= (w * 0x10000 + 500_000) / 1_000_000)
            by (nonlinear_arith)
            requires
                v <= w,
        ;
    }
}

proof fn lemma_nearest_div(a: int, d: int)
    requires
        0 <= a,
        0 < d,
    ensures
        d * (a / d) <= a < d * (a / d) + d,
{
    vstd::arithmetic::div_mod::lemma_fundamental_div_mod(a, d);
    vstd::arithmetic::div_mod::lemma_mod_pos_bound(a, d);
}

impl NormalizedVolume {
    /// This volume as a raw sound-server volume.
    pub fn to_pulse_volume(self) -> (r: u32)
        ensures
            r == pulse_volume(self@),
            r <= VOLUME_NORM,
            r * SCALE <= self@ * VOLUME_NORM + SCALE / 2,
            self@ * VOLUME_NORM < r * SCALE + SCALE / 2,
    {
        let v = self.get() as u64;
        proof {
            lemma_pulse_volume_nearest(self@, self@);
        }
        assert(v * 0x10000 + 500_000 <= 0x10000 * 1_000_000 + 500_000) by (nonlinear_arith)
            requires
                v <= 1_000_000,
        ;
        assert((v * 0x10000 + 500_000) as int / 1_000_000 <= 0x10000) by (nonlinear_arith)
            requires
                v <= 1_000_000,
        ;
        ((v * 0x10000 + 500_000) / 1_000_000) as u32
    }
}

/// What the sound server is asked to do for a volume request.
#[derive(Debug, Clone, Copy, PartialEq, Eq, Structural)]
pub enum VolumeCommand {
    /// Set every channel of every output device (sink) to this raw volume.
    SetSinkVolumes(u32),
    /// Set every channel of every input device (source) to this raw volume.
    SetSourceVolumes(u32),
}

/// Records `volume` for `target` in `registry`, then decides what the sound server is asked to
/// do: the master target sets every sink, the microphone every source, and any other target is
/// refused as not implemented.
pub fn plan_volume_change(
    registry: &mut VolumeRegistry,
    target: &VolumeTarget,
    volume: NormalizedVolume,
) -> (r: Result<VolumeCommand, AudioAdapterError>)
    ensures
        registers(*old(registry), *final(registry), *target, volume@),
        *target is Master ==> r == Ok::<VolumeCommand, AudioAdapterError>(
            VolumeCommand::SetSinkVolumes(pulse_volume(volume@) as u32),
        ),
        *target is Mic ==> r == Ok::<VolumeCommand, AudioAdapterError>(
            VolumeCommand::SetSourceVolumes(pulse_volume(volume@) as u32),
        ),
        !(*target is Master) && !(*target is Mic) ==> (r matches Err(e) && e.failed_target()
            == *target && e.explanation() == Some(e.explanation()->0) && e.explanation()->0@
            == "not implemented"@ && e.cause() is None),
{
    registry.register(target.clone(), volume);
    match target {
        VolumeTarget::Master => Ok(VolumeCommand::SetSinkVolumes(volume.to_pulse_volume())),
        VolumeTarget::Mic => Ok(VolumeCommand::SetSourceVolumes(volume.to_pulse_volume())),
        _ => Err(AudioAdapterError::without_source(target.clone(), String::from_str("not implemented"))),
    }
}

} // verus!
