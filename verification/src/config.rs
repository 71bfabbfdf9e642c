//! The resolved service configuration and its resolution from the raw file format.
use vstd::prelude::*;

use std::collections::HashMap;

use vstd::std_specs::hash::spec_hash_map_iter;
use vstd::std_specs::iter::IteratorSpec;

use crate::audio::VolumeTarget;
use crate::text::chars_of;

verus! {

broadcast use vstd::std_specs::hash::group_hash_axioms;

/// How much smoothing the slider readings get: more for noisier hardware.
#[derive(Debug, Clone, Copy, PartialEq, Eq, Hash)]
pub enum NoiseReduction {
    Low,
    Default,
    High,
}

/// Fully resolved service configuration: no notion of files, YAML or magic strings.
#[derive(Debug, Clone)]
pub struct ServiceConfig {
    /// The targets each slider controls, by slider index.
    pub slider_mapping: HashMap<u8, Vec<VolumeTarget>>,
    /// Whether slider positions are read upside down.
    pub invert_sliders: bool,
    /// The serial device the board is attached to.
    pub com_port: String,
    /// The serial line speed.
    pub baud_rate: u32,
    /// How much the slider readings are smoothed.
    pub noise_reduction: NoiseReduction,
}

/// The noise-reduction level as written in the configuration file.
#[derive(Debug, Clone, Copy, PartialEq, Eq, Structural)]
pub enum RawNoiseReduction {
    Low,
    Default,
    High,
}

/// What one slider is mapped to in the configuration file: one name or a list of names.
#[derive(Debug, PartialEq, Eq)]
pub enum RawSliderMapping {
    Target(String),
    Targets(Vec<String>),
}

/// The configuration file's contents, before resolution.
#[derive(Debug)]
pub struct RawConfig {
    pub slider_mapping: HashMap<u8, RawSliderMapping>,
    pub invert_sliders: bool,
    pub com_port: String,
    pub baud_rate: u32,
    pub noise_reduction: RawNoiseReduction,
}

/// The noise-reduction level a raw level stands for.
pub open spec fn noise_level(raw: RawNoiseReduction) -> NoiseReduction {
    match raw {
        RawNoiseReduction::Low => NoiseReduction::Low,
        RawNoiseReduction::Default => NoiseReduction::Default,
        RawNoiseReduction::High => NoiseReduction::High,
    }
}

impl From<RawNoiseReduction> for NoiseReduction {
    fn from(raw: RawNoiseReduction) -> (r: Self) {
        match raw {
            RawNoiseReduction::Low => NoiseReduction::Low,
            RawNoiseReduction::Default => NoiseReduction::Default,
            RawNoiseReduction::High => NoiseReduction::High,
        }
    }
}

impl vstd::std_specs::convert::FromSpecImpl<RawNoiseReduction> for NoiseReduction {
    open spec fn obeys_from_spec() -> bool {
        true
    }

    open spec fn from_spec(raw: RawNoiseReduction) -> Self {
        noise_level(raw)
    }
}

/// `c` with ASCII upper-case letters turned to lower case.
pub open spec fn ascii_lower(c: char) -> char {
    if 'A' <= c <= 'Z' {
        (((c as u8) + 32) as u8) as char
    } else {
        c
    }
}

/// Whether `a` and `b` are equal when ASCII letters are compared without regard to case.
pub open spec fn eq_ignore_ascii_case(a: Seq<char>, b: Seq<char>) -> bool {
    a.len() == b.len() && forall|i: int| 0 <= i < a.len() ==> ascii_lower(#[trigger] a[i]) == ascii_lower(b[i])
}

/// The target a configured name stands for: `master`, `mic` and `deej.unmapped` (in any ASCII
/// case) are the special targets, any other name is a process.
pub open spec fn special_target(name: String) -> VolumeTarget {
    if eq_ignore_ascii_case(name@, "master"@) {
        VolumeTarget::Master
    } else if eq_ignore_ascii_case(name@, "mic"@) {
        VolumeTarget::Mic
    } else if eq_ignore_ascii_case(name@, "deej.unmapped"@) {
        VolumeTarget::Unmapped
    } else {
        VolumeTarget::Process(name)
    }
}

/// The targets a raw slider mapping stands for, in order.
pub open spec fn mapping_targets(raw: RawSliderMapping) -> Seq<VolumeTarget> {
    match raw {
        RawSliderMapping::Target(name) => seq![special_target(name)],
        RawSliderMapping::Targets(names) => names@.map_values(|n: String| special_target(n)),
    }
}

fn lower_char(c: char) -> (r: char)
    ensures
        r == ascii_lower(c),
{
    if 'A' <= c && c <= 'Z' {
        ((c as u8) + 32) as char
    } else {
        c
    }
}

/// Whether `a` equals `b` when ASCII letters are compared without regard to case.
fn chars_eq_ignore_ascii_case(a: &Vec<char>, b: &Vec<char>) -> (r: bool)
    ensures
        r == eq_ignore_ascii_case(a@, b@),
{
    if a.len() != b.len() {
        return false;
    }
    let mut i: usize = 0;
    while i < a.len()
        invariant
            a@.len() == b@.len(),
            i <= a@.len(),
            forall|j: int| 0 <= j < i ==> ascii_lower(#[trigger] a@[j]) == ascii_lower(b@[j]),
        decreases a@.len() - i,
    {
        if lower_char(a[i]) != lower_char(b[i]) {
            return false;
        }
        i = i + 1;
    }
    true
}

/// Resolves a configured name into a target: `master`, `mic` and `deej.unmapped` (in any ASCII
/// case) are the special targets, any other name is a process.
pub fn resolve_special(name: String) -> (r: VolumeTarget)
    ensures
        r == special_target(name),
{
    let chars = chars_of(name.as_str());
    let master = chars_of("master");
    let mic = chars_of("mic");
    let unmapped = chars_of("deej.unmapped");
    if chars_eq_ignore_ascii_case(&chars, &master) {
        VolumeTarget::Master
    } else if chars_eq_ignore_ascii_case(&chars, &mic) {
        VolumeTarget::Mic
    } else if chars_eq_ignore_ascii_case(&chars, &unmapped) {
        VolumeTarget::Unmapped
    } else {
        VolumeTarget::Process(name)
    }
}

impl RawSliderMapping {
    /// The targets this mapping stands for, in order.
    pub fn to_targets(&self) -> (r: Vec<VolumeTarget>)
        ensures
            r@ == mapping_targets(*self),
    {
        match self {
            RawSliderMapping::Target(name) => {
                let mut out: Vec<VolumeTarget> = Vec::new();
                out.push(resolve_special(name.clone()));
                out
            },
            RawSliderMapping::Targets(names) => {
                let mut out: Vec<VolumeTarget> = Vec::new();
                let mut i: usize = 0;
                while i < names.len()
                    invariant
                        i <= names@.len(),
                        out@ == names@.take(i as int).map_values(|n: String| special_target(n)),
                    decreases names@.len() - i,
                {
                    let t = resolve_special(names[i].clone());
                    out.push(t);
                    i = i + 1;
                    assert(out@ == names@.take(i as int).map_values(|n: String| special_target(n)));
                }
                assert(names@.take(names@.len() as int) == names@);
                out
            },
        }
    }
}

impl ServiceConfig {
    /// Resolves the configuration file's contents: every slider keeps its index and maps to the
    /// targets its names stand for; the other settings carry over unchanged.
    pub fn from_raw(raw: RawConfig) -> (r: Self)
        ensures
            r.slider_mapping@.dom() == raw.slider_mapping@.dom(),
            forall|k: u8|
                #[trigger] r.slider_mapping@.contains_key(k) ==> r.slider_mapping@[k]@
                    == mapping_targets(raw.slider_mapping@[k]),
            r.invert_sliders == raw.invert_sliders,
            r.com_port == raw.com_port,
            r.baud_rate == raw.baud_rate,
            r.noise_reduction == noise_level(raw.noise_reduction),
    {
        let mut mapping: HashMap<u8, Vec<VolumeTarget>> = HashMap::new();
        for entry in it: raw.slider_mapping.iter()
            invariant
                forall|k: u8|
                    #[trigger] mapping@.contains_key(k) <==> exists|i: int|
                        0 <= i < it.index() && *(#[trigger] it.seq()[i]).0 == k,
                forall|k: u8|
                    #[trigger] mapping@.contains_key(k) ==> mapping@[k]@ == mapping_targets(
                        raw.slider_mapping@[k],
                    ),
                forall|i: int|
                    0 <= i < it.seq().len() ==> raw.slider_mapping@.contains_key(*(#[trigger] it.seq()[i]).0)
                        && raw.slider_mapping@[*it.seq()[i].0] == *it.seq()[i].1,
        {
            let (k, v) = entry;
            let targets = v.to_targets();
            let ghost idx = it.index();
            mapping.insert(*k, targets);
            proof {
                assert(*it.seq()[idx].0 == *k);
                assert forall|x: u8| #[trigger] mapping@.contains_key(x) <==> exists|i: int|
                    0 <= i < idx + 1 && *(#[trigger] it.seq()[i]).0 == x by {
                    if x == *k {
                        assert(*it.seq()[idx].0 == x);
                    }
                }
            }
        }
        proof {
            assert forall|k: u8| #[trigger] raw.slider_mapping@.contains_key(k) implies mapping@.contains_key(k) by {
                let v = spec_hash_map_iter(&raw.slider_mapping).remaining();
                assert(v.contains((&k, &raw.slider_mapping@[k])));
                let i = choose|i: int| 0 <= i < v.len() && v[i] == (&k, &raw.slider_mapping@[k]);
                assert(*v[i].0 == k);
            }
            assert(mapping@.dom() == raw.slider_mapping@.dom());
        }
        let noise_reduction = NoiseReduction::from(raw.noise_reduction);
        ServiceConfig {
            slider_mapping: mapping,
            invert_sliders: raw.invert_sliders,
            com_port: raw.com_port,
            baud_rate: raw.baud_rate,
            noise_reduction,
        }
    }
}

} // verus!
