use deej_rs::audio::volume_registry::VolumeRegistry;
use deej_rs::audio::{NormalizedVolume, VolumeTarget};

const PROCESS1: &str = "process1";
const PROCESS2: &str = "process2";

/// A volume given as a fraction of the maximum.
fn vol(fraction: f32) -> NormalizedVolume {
    NormalizedVolume::clamped((fraction * 1_000_000.0).round() as i64)
}

fn master_volume() -> NormalizedVolume {
    vol(0.0)
}

fn mic_volume() -> NormalizedVolume {
    vol(0.1)
}

fn unmapped_volume() -> NormalizedVolume {
    vol(0.2)
}

fn process1_volume() -> NormalizedVolume {
    vol(0.3)
}

fn process2_volume() -> NormalizedVolume {
    vol(0.4)
}

/// Creates a volume registry with the mapping:
///     Master -> 0.0
///     Mic -> 0.1
///     Unmapped -> 0.2
///     'process1' -> 0.3
///     'process2' -> 0.4
fn testing_registry() -> VolumeRegistry {
    let mut registry = VolumeRegistry::new();

    registry.register(VolumeTarget::Master, master_volume());
    registry.register(VolumeTarget::Mic, mic_volume());
    registry.register(VolumeTarget::Unmapped, unmapped_volume());
    registry.register(VolumeTarget::Process(PROCESS1.into()), process1_volume());
    registry.register(VolumeTarget::Process(PROCESS2.into()), process2_volume());

    registry
}

#[test]
fn test_resolve_master() {
    let empty_registry = VolumeRegistry::new();
    let filled_registry = testing_registry();

    assert_eq!(empty_registry.resolve(&VolumeTarget::Master), None);
    assert_eq!(
        filled_registry.resolve(&VolumeTarget::Master),
        Some(master_volume())
    );
}

#[test]
fn test_resolve_exact_master() {
    let empty_registry = VolumeRegistry::new();
    let filled_registry = testing_registry();

    assert_eq!(empty_registry.resolve_exact(&VolumeTarget::Master), None);
    assert_eq!(
        filled_registry.resolve_exact(&VolumeTarget::Master),
        Some(master_volume())
    );
}

#[test]
fn test_resolve_mic() {
    let empty_registry = VolumeRegistry::new();
    let filled_registry = testing_registry();

    assert_eq!(empty_registry.resolve(&VolumeTarget::Mic), None);
    assert_eq!(
        filled_registry.resolve(&VolumeTarget::Mic),
        Some(mic_volume())
    );
}

#[test]
fn test_resolve_exact_mic() {
    let empty_registry = VolumeRegistry::new();
    let filled_registry = testing_registry();

    assert_eq!(empty_registry.resolve_exact(&VolumeTarget::Mic), None);
    assert_eq!(
        filled_registry.resolve_exact(&VolumeTarget::Mic),
        Some(mic_volume())
    );
}

#[test]
fn test_resolve_unmapped() {
    let empty_registry = VolumeRegistry::new();
    let filled_registry = testing_registry();

    assert_eq!(empty_registry.resolve(&VolumeTarget::Unmapped), None);
    assert_eq!(
        filled_registry.resolve(&VolumeTarget::Unmapped),
        Some(unmapped_volume())
    );
}

#[test]
fn test_resolve_exact_unmapped() {
    let empty_registry = VolumeRegistry::new();
    let filled_registry = testing_registry();

    assert_eq!(empty_registry.resolve_exact(&VolumeTarget::Unmapped), None);
    assert_eq!(
        filled_registry.resolve_exact(&VolumeTarget::Unmapped),
        Some(unmapped_volume())
    );
}

#[test]
fn test_resolve_process() {
    let registry = testing_registry();

    assert_eq!(
        registry.resolve(&VolumeTarget::Process(PROCESS1.into())),
        Some(process1_volume())
    );
    assert_eq!(
        registry.resolve(&VolumeTarget::Process(PROCESS2.into())),
        Some(process2_volume())
    );
    assert_eq!(registry.resolve_process(PROCESS1), Some(process1_volume()));
    assert_eq!(registry.resolve_process(PROCESS2), Some(process2_volume()));
}

#[test]
fn test_resolve_unmapped_process() {
    let mut registry = VolumeRegistry::new();

    assert_eq!(
        registry.resolve(&VolumeTarget::Process(PROCESS1.into())),
        None
    );
    assert_eq!(
        registry.resolve(&VolumeTarget::Process(PROCESS2.into())),
        None
    );
    assert_eq!(registry.resolve_process(PROCESS1), None);
    assert_eq!(registry.resolve_process(PROCESS2), None);

    registry.register(VolumeTarget::Unmapped, unmapped_volume());

    assert_eq!(
        registry.resolve(&VolumeTarget::Process(PROCESS1.into())),
        Some(unmapped_volume())
    );
    assert_eq!(
        registry.resolve(&VolumeTarget::Process(PROCESS2.into())),
        Some(unmapped_volume())
    );
    assert_eq!(registry.resolve_process(PROCESS1), Some(unmapped_volume()));
    assert_eq!(registry.resolve_process(PROCESS2), Some(unmapped_volume()));
}

#[test]
fn test_resolve_exact_unmapped_process() {
    let mut registry = VolumeRegistry::new();

    assert_eq!(
        registry.resolve_exact(&VolumeTarget::Process(PROCESS1.into())),
        None
    );
    assert_eq!(
        registry.resolve_exact(&VolumeTarget::Process(PROCESS2.into())),
        None
    );
    assert_eq!(registry.resolve_process_exact(PROCESS1), None);
    assert_eq!(registry.resolve_process_exact(PROCESS2), None);

    registry.register(VolumeTarget::Unmapped, unmapped_volume());

    assert_eq!(
        registry.resolve_exact(&VolumeTarget::Process(PROCESS1.into())),
        None
    );
    assert_eq!(
        registry.resolve_exact(&VolumeTarget::Process(PROCESS2.into())),
        None
    );
    assert_eq!(registry.resolve_process_exact(PROCESS1), None);
    assert_eq!(registry.resolve_process_exact(PROCESS2), None);
}

#[test]
fn test_register_master() {
    let mut registry = VolumeRegistry::new();

    assert_eq!(
        registry.resolve_exact(&VolumeTarget::Master),
        None,
        "Master volume should start as None"
    );

    registry.register(VolumeTarget::Master, vol(1.0));
    assert_eq!(
        registry.resolve_exact(&VolumeTarget::Master),
        Some(vol(1.0)),
        "Master should be set to 1.0"
    );

    registry.register(VolumeTarget::Master, vol(0.0));
    assert_eq!(
        registry.resolve_exact(&VolumeTarget::Master),
        Some(vol(0.0)),
        "Master should be set to 0.0"
    );
}

#[test]
fn test_register_mic() {
    let mut registry = VolumeRegistry::new();

    assert_eq!(
        registry.resolve_exact(&VolumeTarget::Mic),
        None,
        "Mic volume should start as None"
    );

    registry.register(VolumeTarget::Mic, vol(1.0));
    assert_eq!(
        registry.resolve_exact(&VolumeTarget::Mic),
        Some(vol(1.0)),
        "Mic should be set to 1.0"
    );

    registry.register(VolumeTarget::Mic, vol(0.0));
    assert_eq!(
        registry.resolve_exact(&VolumeTarget::Mic),
        Some(vol(0.0)),
        "Mic should be set to 0.0"
    );
}

#[test]
fn test_register_unmapped() {
    let mut registry = VolumeRegistry::new();

    assert_eq!(
        registry.resolve_exact(&VolumeTarget::Unmapped),
        None,
        "Unmapped volume should start as None"
    );

    registry.register(VolumeTarget::Unmapped, vol(1.0));
    assert_eq!(
        registry.resolve_exact(&VolumeTarget::Unmapped),
        Some(vol(1.0)),
        "Unmapped should be set to 1.0"
    );

    registry.register(VolumeTarget::Unmapped, vol(0.0));
    assert_eq!(
        registry.resolve_exact(&VolumeTarget::Unmapped),
        Some(vol(0.0)),
        "Unmapped should be set to 0.0"
    );
}

#[test]
fn test_register_process() {
    let mut registry = VolumeRegistry::new();

    assert_eq!(registry.process_len(), 0, "Process map should start empty");

    registry.register(VolumeTarget::Process("process1".into()), vol(1.0));
    assert_eq!(registry.process_len(), 1, "Process map should have 1 entry");
    assert_eq!(
        registry.resolve_process_exact("process1"),
        Some(vol(1.0)),
        "'process1' should be set to 1.0"
    );

    registry.register(VolumeTarget::Process("process2".into()), vol(1.0));
    assert_eq!(registry.process_len(), 2, "Process map should have 2 entries");
    assert_eq!(
        registry.resolve_process_exact("process1"),
        Some(vol(1.0)),
        "'process1' volume should not have changed"
    );
    assert_eq!(
        registry.resolve_process_exact("process2"),
        Some(vol(1.0)),
        "'process2' should be set to 1.0"
    );

    registry.register(VolumeTarget::Process("process2".into()), vol(0.0));
    assert_eq!(registry.process_len(), 2, "Process map should have 2 entries");
    assert_eq!(
        registry.resolve_process_exact("process1"),
        Some(vol(1.0)),
        "'process1' volume should not have changed"
    );
    assert_eq!(
        registry.resolve_process_exact("process2"),
        Some(vol(0.0)),
        "'process2' should be set to 0.0"
    );
}

#[test]
fn read_after_register_and_other_slots_untouched() {
    let mut registry = testing_registry();
    registry.register(VolumeTarget::Process(PROCESS1.into()), vol(0.9));
    assert_eq!(registry.resolve_process(PROCESS1), Some(vol(0.9)));
    assert_eq!(registry.resolve_process(PROCESS2), Some(process2_volume()));
    assert_eq!(registry.resolve(&VolumeTarget::Master), Some(master_volume()));
    assert_eq!(registry.resolve(&VolumeTarget::Mic), Some(mic_volume()));
    assert_eq!(registry.resolve(&VolumeTarget::Unmapped), Some(unmapped_volume()));
    assert_eq!(registry.process_len(), 2);
}

#[test]
fn process_names_are_case_sensitive_in_registry() {
    let mut registry = VolumeRegistry::new();
    registry.register(VolumeTarget::Process("Firefox".into()), vol(0.5));
    assert_eq!(registry.resolve_process_exact("firefox"), None);
    assert_eq!(registry.resolve_process_exact("Firefox"), Some(vol(0.5)));
}

#[test]
fn default_registry_is_empty() {
    let registry = VolumeRegistry::default();
    assert_eq!(registry.process_len(), 0);
    assert_eq!(registry.resolve(&VolumeTarget::Master), None);
}
