use std::collections::HashMap;

use deej_rs::audio::pulseaudio::{plan_volume_change, VolumeCommand, VOLUME_NORM};
use deej_rs::audio::volume_registry::VolumeRegistry;
use deej_rs::audio::{AudioAdapterError, NormalizedVolume, VolumeTarget, SCALE};
use deej_rs::config::{NoiseReduction, ServiceConfig};
use deej_rs::service::frame_requests;
use deej_rs::slider::SliderSmoother;

fn units(n: i64) -> NormalizedVolume {
    NormalizedVolume::new(n).unwrap()
}

fn config_with(mapping: Vec<(u8, Vec<VolumeTarget>)>) -> ServiceConfig {
    let mut slider_mapping = HashMap::new();
    for (k, v) in mapping {
        slider_mapping.insert(k, v);
    }
    ServiceConfig {
        slider_mapping,
        invert_sliders: false,
        com_port: "COM4".to_string(),
        baud_rate: 9600,
        noise_reduction: NoiseReduction::Default,
    }
}

fn process(name: &str) -> VolumeTarget {
    VolumeTarget::Process(name.to_string())
}

#[test]
fn first_frame_requests_every_mapped_target() {
    let config = config_with(vec![
        (0, vec![VolumeTarget::Master]),
        (2, vec![process("a.exe"), process("b.exe")]),
    ]);
    let mut smoother = SliderSmoother::new(config.noise_reduction);
    let frame = vec![units(100_000), units(200_000), units(300_000)];
    let requests = frame_requests(&config, &mut smoother, &frame);
    assert_eq!(
        requests,
        vec![
            (VolumeTarget::Master, units(100_000)),
            (process("a.exe"), units(300_000)),
            (process("b.exe"), units(300_000)),
        ]
    );
}

#[test]
fn unchanged_frame_requests_nothing() {
    let config = config_with(vec![(0, vec![VolumeTarget::Master])]);
    let mut smoother = SliderSmoother::new(config.noise_reduction);
    let frame = vec![units(500_000)];
    assert_eq!(frame_requests(&config, &mut smoother, &frame).len(), 1);
    assert!(frame_requests(&config, &mut smoother, &frame).is_empty());
}

#[test]
fn unmapped_sliders_request_nothing() {
    let config = config_with(vec![(5, vec![VolumeTarget::Mic])]);
    let mut smoother = SliderSmoother::new(NoiseReduction::Low);
    let frame = vec![units(1), units(2), units(3)];
    assert!(frame_requests(&config, &mut smoother, &frame).is_empty());
}

#[test]
fn sliders_beyond_u8_request_nothing() {
    let config = config_with(vec![(255, vec![VolumeTarget::Mic])]);
    let mut smoother = SliderSmoother::new(NoiseReduction::Low);
    let frame: Vec<NormalizedVolume> = (0..257).map(|_| units(SCALE as i64)).collect();
    let requests = frame_requests(&config, &mut smoother, &frame);
    // slider 255 is mapped; slider 256 does not fit a slider index and is skipped
    assert_eq!(requests, vec![(VolumeTarget::Mic, NormalizedVolume::max())]);
}

#[test]
fn later_frames_request_the_smoothed_value() {
    let config = config_with(vec![(0, vec![VolumeTarget::Master])]);
    let mut smoother = SliderSmoother::new(NoiseReduction::Low);
    assert_eq!(
        frame_requests(&config, &mut smoother, &vec![units(0)]),
        vec![(VolumeTarget::Master, units(0))]
    );
    // window of four: the average of 0 and 800_000 is 400_000
    assert_eq!(
        frame_requests(&config, &mut smoother, &vec![units(800_000)]),
        vec![(VolumeTarget::Master, units(400_000))]
    );
}

#[test]
fn pulse_volume_scales_to_norm() {
    assert_eq!(VOLUME_NORM, 0x10000);
    assert_eq!(NormalizedVolume::min().to_pulse_volume(), 0);
    assert_eq!(NormalizedVolume::max().to_pulse_volume(), 65536);
    assert_eq!(units(500_000).to_pulse_volume(), 32768);
    // 0.1 of 65536 is 6553.6, rounded to the nearest
    assert_eq!(units(100_000).to_pulse_volume(), 6554);
    assert_eq!(units(1).to_pulse_volume(), 0);
}

#[test]
fn master_request_sets_every_sink() {
    let mut registry = VolumeRegistry::new();
    let command = plan_volume_change(&mut registry, &VolumeTarget::Master, units(250_000));
    assert_eq!(command.unwrap(), VolumeCommand::SetSinkVolumes(16384));
    assert_eq!(registry.resolve_exact(&VolumeTarget::Master), Some(units(250_000)));
}

#[test]
fn mic_request_sets_every_source() {
    let mut registry = VolumeRegistry::new();
    let command = plan_volume_change(&mut registry, &VolumeTarget::Mic, NormalizedVolume::max());
    assert_eq!(command.unwrap(), VolumeCommand::SetSourceVolumes(65536));
    assert_eq!(registry.resolve_exact(&VolumeTarget::Mic), Some(NormalizedVolume::max()));
}

#[test]
fn process_request_is_refused_but_recorded() {
    let mut registry = VolumeRegistry::new();
    let err = plan_volume_change(&mut registry, &process("game.exe"), units(10)).unwrap_err();
    assert_eq!(err.target(), &process("game.exe"));
    assert!(err.source().is_none());
    assert_eq!(err.describe(), "failed to set volume for game.exe: not implemented");
    assert_eq!(registry.resolve_process_exact("game.exe"), Some(units(10)));
}

#[test]
fn unmapped_request_is_refused() {
    let mut registry = VolumeRegistry::new();
    let err = plan_volume_change(&mut registry, &VolumeTarget::Unmapped, units(10)).unwrap_err();
    assert_eq!(
        err.describe(),
        "failed to set volume for deej.unmapped: not implemented"
    );
}

#[test]
fn error_descriptions() {
    let err = AudioAdapterError::new(VolumeTarget::Mic, "device busy".to_string());
    assert_eq!(err.describe(), "failed to set volume for mic: device busy");
    assert_eq!(err.source(), Some(&"device busy".to_string()));
    let err = err.with_message("retry later".to_string());
    assert_eq!(
        err.describe(),
        "failed to set volume for mic: retry later: device busy"
    );
    let err = AudioAdapterError::without_source(VolumeTarget::Master, "no sink".to_string());
    assert_eq!(err.describe(), "failed to set volume for master: no sink");
    assert_eq!(err.target(), &VolumeTarget::Master);
}

#[test]
fn target_names() {
    assert_eq!(VolumeTarget::Master.name(), "master");
    assert_eq!(VolumeTarget::Mic.name(), "mic");
    assert_eq!(VolumeTarget::Unmapped.name(), "deej.unmapped");
    assert_eq!(process("x.exe").name(), "x.exe");
}
