use std::collections::HashMap;

use deej_rs::audio::VolumeTarget;
use deej_rs::config::{
    resolve_special, NoiseReduction, RawConfig, RawNoiseReduction, RawSliderMapping,
    ServiceConfig,
};

fn one(name: &str) -> RawSliderMapping {
    RawSliderMapping::Target(name.to_string())
}

fn many(names: &[&str]) -> RawSliderMapping {
    RawSliderMapping::Targets(names.iter().map(|n| n.to_string()).collect())
}

/// The contents of the sample configuration file, as its parser hands them over.
fn sample_raw_config() -> RawConfig {
    let mut slider_mapping = HashMap::new();
    slider_mapping.insert(0, one("master"));
    slider_mapping.insert(1, one("chrome.exe"));
    slider_mapping.insert(2, one("spotify.exe"));
    slider_mapping.insert(3, many(&["pathofexile_x64.exe", "rocketleague.exe"]));
    slider_mapping.insert(4, one("discord.exe"));
    RawConfig {
        slider_mapping,
        invert_sliders: false,
        com_port: "COM4".to_string(),
        baud_rate: 9600,
        noise_reduction: RawNoiseReduction::Default,
    }
}

#[test]
fn deserialize_config() {
    let config: ServiceConfig = ServiceConfig::from_raw(sample_raw_config());

    assert_eq!(
        config.slider_mapping.get(&0).unwrap(),
        &[VolumeTarget::Master]
    );

    assert_eq!(
        config.slider_mapping.get(&1).unwrap(),
        &[VolumeTarget::Process("chrome.exe".to_string())]
    );

    assert_eq!(
        config.slider_mapping.get(&2).unwrap(),
        &[VolumeTarget::Process("spotify.exe".to_string())]
    );

    assert_eq!(
        config.slider_mapping.get(&3).unwrap(),
        &[
            VolumeTarget::Process("pathofexile_x64.exe".to_string()),
            VolumeTarget::Process("rocketleague.exe".to_string()),
        ]
    );

    assert_eq!(
        config.slider_mapping.get(&4).unwrap(),
        &[VolumeTarget::Process("discord.exe".to_string())]
    );

    assert!(!config.invert_sliders);
    assert_eq!(config.com_port, "COM4");
    assert_eq!(config.baud_rate, 9600);
    assert!(matches!(config.noise_reduction, NoiseReduction::Default));
}

#[test]
fn from_raw_keeps_exactly_the_configured_sliders() {
    let config = ServiceConfig::from_raw(sample_raw_config());
    let mut keys: Vec<u8> = config.slider_mapping.keys().copied().collect();
    keys.sort();
    assert_eq!(keys, vec![0, 1, 2, 3, 4]);
    assert!(config.slider_mapping.get(&5).is_none());
}

#[test]
fn from_raw_with_no_sliders() {
    let raw = RawConfig {
        slider_mapping: HashMap::new(),
        invert_sliders: true,
        com_port: "/dev/ttyUSB0".to_string(),
        baud_rate: 115200,
        noise_reduction: RawNoiseReduction::High,
    };
    let config = ServiceConfig::from_raw(raw);
    assert!(config.slider_mapping.is_empty());
    assert!(config.invert_sliders);
    assert_eq!(config.com_port, "/dev/ttyUSB0");
    assert_eq!(config.baud_rate, 115200);
    assert_eq!(config.noise_reduction, NoiseReduction::High);
}

#[test]
fn noise_reduction_levels_carry_over() {
    assert_eq!(NoiseReduction::from(RawNoiseReduction::Low), NoiseReduction::Low);
    assert_eq!(NoiseReduction::from(RawNoiseReduction::Default), NoiseReduction::Default);
    assert_eq!(NoiseReduction::from(RawNoiseReduction::High), NoiseReduction::High);
}

#[test]
fn special_names_ignore_ascii_case() {
    assert_eq!(resolve_special("master".to_string()), VolumeTarget::Master);
    assert_eq!(resolve_special("MASTER".to_string()), VolumeTarget::Master);
    assert_eq!(resolve_special("Mic".to_string()), VolumeTarget::Mic);
    assert_eq!(resolve_special("deej.unmapped".to_string()), VolumeTarget::Unmapped);
    assert_eq!(resolve_special("Deej.Unmapped".to_string()), VolumeTarget::Unmapped);
}

#[test]
fn other_names_are_processes_kept_verbatim() {
    assert_eq!(
        resolve_special("Chrome.EXE".to_string()),
        VolumeTarget::Process("Chrome.EXE".to_string())
    );
    assert_eq!(
        resolve_special("master ".to_string()),
        VolumeTarget::Process("master ".to_string())
    );
    assert_eq!(
        resolve_special("deej.current".to_string()),
        VolumeTarget::Process("deej.current".to_string())
    );
    assert_eq!(resolve_special(String::new()), VolumeTarget::Process(String::new()));
}

#[test]
fn non_ascii_case_folding_is_not_applied() {
    // only ASCII letters are folded: a dotted capital I is not an `i`
    assert_eq!(
        resolve_special("mİc".to_string()),
        VolumeTarget::Process("mİc".to_string())
    );
}

#[test]
fn mapping_lists_keep_their_order() {
    let targets = many(&["MIC", "game.exe", "Master"]).to_targets();
    assert_eq!(
        targets,
        vec![
            VolumeTarget::Mic,
            VolumeTarget::Process("game.exe".to_string()),
            VolumeTarget::Master,
        ]
    );
    assert_eq!(many(&[]).to_targets(), Vec::<VolumeTarget>::new());
    assert_eq!(one("deej.unmapped").to_targets(), vec![VolumeTarget::Unmapped]);
}
