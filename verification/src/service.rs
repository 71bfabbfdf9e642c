//! The decisions of the service loop: which volume requests a slider frame gives rise to.
use vstd::prelude::*;

use crate::audio::{NormalizedVolume, VolumeTarget};
use crate::config::ServiceConfig;
use crate::slider::{frame_values, SliderFrame, SliderSmoother};

verus! {

broadcast use vstd::std_specs::hash::group_hash_axioms;

/// The `(target, value)` requests for the first `k` reported slider changes, in order: each
/// change of a slider whose index fits in a `u8` and has a mapping asks for every mapped
/// target, in mapping order; other changes ask for nothing.
pub open spec fn requests(
    mapping: Map<u8, Vec<VolumeTarget>>,
    changes: Seq<(int, nat)>,
    k: int,
) -> Seq<(VolumeTarget, nat)>
    decreases k,
{
    if k <= 0 {
        Seq::empty()
    } else {
        let prev = requests(mapping, changes, k - 1);
        let (index, value) = changes[k - 1];
        if 0 <= index <= u8::MAX && mapping.contains_key(index as u8) {
            prev + mapping[index as u8]@.map_values(|t: VolumeTarget| (t, value))
        } else {
            prev
        }
    }
}

/// Feeds `frame` to `smoother` and returns the volume requests its reported changes give rise
/// to under `config`'s slider mapping, in order.
pub fn frame_requests(
    config: &ServiceConfig,
    smoother: &mut SliderSmoother,
    frame: &SliderFrame,
) -> (r: Vec<(VolumeTarget, NormalizedVolume)>)
    requires
        old(smoother).wf(),
    ensures
        final(smoother).wf(),
        final(smoother).window() == old(smoother).window(),
        final(smoother).epsilon() == old(smoother).epsilon(),
        final(smoother).len() == if frame@.len() > old(smoother).len() {
            frame@.len()
        } else {
            old(smoother).len()
        },
        forall|i: int|
            0 <= i < frame@.len() ==> #[trigger] final(smoother).history(i) == old(
                smoother,
            ).next_history(i, frame@[i]@),
        forall|i: int|
            0 <= i < frame@.len() ==> #[trigger] final(smoother).last(i) == if old(smoother).moves(
                i,
                frame@[i]@,
            ) {
                Some(old(smoother).smoothed(i, frame@[i]@))
            } else {
                old(smoother).last(i)
            },
        forall|i: int|
            frame@.len() <= i ==> #[trigger] final(smoother).history(i) == old(smoother).history(i),
        forall|i: int| frame@.len() <= i ==> #[trigger] final(smoother).last(i) == old(smoother).last(i),
        ({
            let changes = old(smoother).changes(frame_values(frame@), frame@.len() as int);
            let expected = requests(config.slider_mapping@, changes, changes.len() as int);
            &&& r@.len() == expected.len()
            &&& forall|j: int|
                0 <= j < r@.len() ==> (#[trigger] r@[j]).0 == expected[j].0 && r@[j].1@
                    == expected[j].1
        }),
{
    let ghost changes_spec = old(smoother).changes(frame_values(frame@), frame@.len() as int);
    let changes = smoother.update(frame);
    let ghost mapping = config.slider_mapping@;
    let mut out: Vec<(VolumeTarget, NormalizedVolume)> = Vec::new();
    let mut c: usize = 0;
    while c < changes.len()
        invariant
            c <= changes@.len(),
            changes@.len() == changes_spec.len(),
            forall|j: int|
                0 <= j < changes@.len() ==> (#[trigger] changes@[j]).0 as int == changes_spec[j].0
                    && changes@[j].1@ == changes_spec[j].1,
            mapping == config.slider_mapping@,
            out@.len() == requests(mapping, changes_spec, c as int).len(),
            forall|j: int|
                0 <= j < out@.len() ==> (#[trigger] out@[j]).0 == requests(
                    mapping,
                    changes_spec,
                    c as int,
                )[j].0 && out@[j].1@ == requests(mapping, changes_spec, c as int)[j].1,
        decreases changes@.len() - c,
    {
        let (index, value) = changes[c];
        let ghost prev = requests(mapping, changes_spec, c as int);
        if index <= 255 {
            let key = index as u8;
            match config.slider_mapping.get(&key) {
                Some(targets) => {
                    let ghost added = targets@.map_values(|t: VolumeTarget| (t, value@));
                    let mut t: usize = 0;
                    while t < targets.len()
                        invariant
                            t <= targets@.len(),
                            out@.len() == prev.len() + t,
                            added == targets@.map_values(|t: VolumeTarget| (t, value@)),
                            forall|j: int|
                                0 <= j < out@.len() ==> (#[trigger] out@[j]).0 == (prev + added)[j].0
                                    && out@[j].1@ == (prev + added)[j].1,
                        decreases targets@.len() - t,
                    {
                        let target = targets[t].clone();
                        out.push((target, value));
                        t = t + 1;
                    }
                    assert(requests(mapping, changes_spec, c + 1) == prev + added);
                },
                None => {
                    assert(requests(mapping, changes_spec, c + 1) == prev);
                },
            }
        } else {
            assert(requests(mapping, changes_spec, c + 1) == prev);
        }
        c = c + 1;
    }
    out
}

} // verus!
