//! Bookkeeping of the last volume requested for each target.
use vstd::prelude::*;

use crate::audio::{same_slot, NormalizedVolume, VolumeTarget};

verus! {

/// Position of the first entry named `name`, or `-1` when there is none.
pub open spec fn find_name(entries: Seq<(String, NormalizedVolume)>, name: Seq<char>) -> int
    decreases entries.len(),
{
    if entries.len() == 0 {
        -1
    } else {
        let p = find_name(entries.drop_last(), name);
        if p >= 0 {
            p
        } else if entries.last().0@ == name {
            entries.len() - 1
        } else {
            -1
        }
    }
}

/// Characterizes [`find_name`]: the first entry with the name, or `-1` when none has it.
proof fn lemma_find_name(entries: Seq<(String, NormalizedVolume)>, name: Seq<char>)
    ensures
        -1 <= find_name(entries, name) < entries.len(),
        find_name(entries, name) == -1 <==> forall|j: int|
            0 <= j < entries.len() ==> (#[trigger] entries[j]).0@ != name,
        find_name(entries, name) >= 0 ==> entries[find_name(entries, name)].0@ == name
            && forall|j: int| 0 <= j < find_name(entries, name) ==> (#[trigger] entries[j]).0@ != name,
    decreases entries.len(),
{
    if entries.len() > 0 {
        let t = entries.drop_last();
        lemma_find_name(t, name);
        let p = find_name(t, name);
        if p >= 0 {
            assert(entries[p] == t[p]);
            assert forall|j: int| 0 <= j < p implies (#[trigger] entries[j]).0@ != name by {
                assert(entries[j] == t[j]);
            }
        } else if entries.last().0@ == name {
            assert(entries[entries.len() - 1].0@ == name);
            assert forall|j: int| 0 <= j < entries.len() - 1 implies (#[trigger] entries[j]).0@
                != name by {
                assert(entries[j] == t[j]);
            }
        } else {
            assert forall|j: int| 0 <= j < entries.len() implies (#[trigger] entries[j]).0@
                != name by {
                if j < entries.len() - 1 {
                    assert(entries[j] == t[j]);
                }
            }
        }
    }
}

/// The first entry named `name` is the only one when names are distinct.
proof fn lemma_find_name_distinct(entries: Seq<(String, NormalizedVolume)>, i: int)
    requires
        0 <= i < entries.len(),
        forall|a: int, b: int|
            0 <= a < b < entries.len() ==> (#[trigger] entries[a]).0@ != (#[trigger] entries[b]).0@,
    ensures
        find_name(entries, entries[i].0@) == i,
{
    lemma_find_name(entries, entries[i].0@);
}

/// The last volume requested for each target.
///
/// Processes without a volume of their own fall back to the volume of
/// [`VolumeTarget::Unmapped`] when resolved with [`VolumeRegistry::resolve`].
#[derive(Debug)]
pub struct VolumeRegistry {
    process_map: Vec<(String, NormalizedVolume)>,
    master: Option<NormalizedVolume>,
    mic: Option<NormalizedVolume>,
    unmapped: Option<NormalizedVolume>,
}

/// `after` is `before` with `volume` registered for `target`: that slot now holds `volume`,
/// every other slot is unchanged, and a process seen for the first time adds one entry.
pub open spec fn registers(
    before: VolumeRegistry,
    after: VolumeRegistry,
    target: VolumeTarget,
    volume: nat,
) -> bool {
    &&& after.master_volume() == if target is Master {
        Some(volume)
    } else {
        before.master_volume()
    }
    &&& after.mic_volume() == if target is Mic {
        Some(volume)
    } else {
        before.mic_volume()
    }
    &&& after.unmapped_volume() == if target is Unmapped {
        Some(volume)
    } else {
        before.unmapped_volume()
    }
    &&& forall|name: Seq<char>|
        #[trigger] after.process_volume(name) == match target {
            VolumeTarget::Process(p) => if p@ == name {
                Some(volume)
            } else {
                before.process_volume(name)
            },
            _ => before.process_volume(name),
        }
    &&& after.process_count() == match target {
        VolumeTarget::Process(p) => if before.process_volume(p@) is None {
            before.process_count() + 1
        } else {
            before.process_count()
        },
        _ => before.process_count(),
    }
}

/// The value of an optional volume, in units of `1 / SCALE`.
pub open spec fn volume_value(v: Option<NormalizedVolume>) -> Option<nat> {
    match v {
        Some(x) => Some(x@),
        None => None,
    }
}

impl VolumeRegistry {
    #[verifier::type_invariant]
    spec fn distinct_names(self) -> bool {
        forall|a: int, b: int|
            0 <= a < b < self.process_map@.len() ==> (#[trigger] self.process_map@[a]).0@
                != (#[trigger] self.process_map@[b]).0@
    }

    /// The volume registered for the master output, if any.
    pub closed spec fn master_volume(&self) -> Option<nat> {
        volume_value(self.master)
    }

    /// The volume registered for the microphone, if any.
    pub closed spec fn mic_volume(&self) -> Option<nat> {
        volume_value(self.mic)
    }

    /// The volume registered for unmapped applications, if any.
    pub closed spec fn unmapped_volume(&self) -> Option<nat> {
        volume_value(self.unmapped)
    }

    /// The volume registered for the process named `name`, if any.
    pub closed spec fn process_volume(&self, name: Seq<char>) -> Option<nat> {
        let p = find_name(self.process_map@, name);
        if p >= 0 {
            Some(self.process_map@[p].1@)
        } else {
            None
        }
    }

    /// Number of processes with a volume of their own.
    pub closed spec fn process_count(&self) -> nat {
        self.process_map@.len()
    }

    /// The volume registered for exactly `target`.
    pub open spec fn lookup_exact(&self, target: VolumeTarget) -> Option<nat> {
        match target {
            VolumeTarget::Master => self.master_volume(),
            VolumeTarget::Mic => self.mic_volume(),
            VolumeTarget::Process(name) => self.process_volume(name@),
            VolumeTarget::Unmapped => self.unmapped_volume(),
        }
    }

    /// The volume that applies to `target`: the registered one, and for a process without one
    /// the unmapped volume.
    pub open spec fn lookup(&self, target: VolumeTarget) -> Option<nat> {
        match target {
            VolumeTarget::Process(name) => match self.process_volume(name@) {
                Some(v) => Some(v),
                None => self.unmapped_volume(),
            },
            _ => self.lookup_exact(target),
        }
    }

    /// An empty registry.
    pub fn new() -> (r: Self)
        ensures
            r.master_volume() is None,
            r.mic_volume() is None,
            r.unmapped_volume() is None,
            forall|name: Seq<char>| #[trigger] r.process_volume(name) is None,
            r.process_count() == 0,
    {
        VolumeRegistry { process_map: Vec::new(), master: None, mic: None, unmapped: None }
    }

    fn find_process(&self, process: &String) -> (r: Option<usize>)
        ensures
            find_name(self.process_map@, process@) == match r {
                Some(i) => i as int,
                None => -1,
            },
            r matches Some(i) ==> i < self.process_map@.len(),
    {
        proof {
            lemma_find_name(self.process_map@, process@);
        }
        let mut i: usize = 0;
        while i < self.process_map.len()
            invariant
                i <= self.process_map@.len(),
                forall|j: int| 0 <= j < i ==> (#[trigger] self.process_map@[j]).0@ != process@,
            decreases self.process_map@.len() - i,
        {
            if self.process_map[i].0 == *process {
                proof {
                    lemma_find_name(self.process_map@, process@);
                }
                return Some(i);
            }
            i = i + 1;
        }
        proof {
            lemma_find_name(self.process_map@, process@);
        }
        None
    }

    /// The volume registered for the process named `process`, without falling back to the
    /// unmapped volume.
    pub fn resolve_process_exact(&self, process: &str) -> (r: Option<NormalizedVolume>)
        ensures
            volume_value(r) == self.process_volume(process@),
    {
        let key = process.to_owned();
        match self.find_process(&key) {
            Some(i) => Some(self.process_map[i].1),
            None => None,
        }
    }

    /// The volume for the process named `process`, falling back to the unmapped volume when it
    /// has none of its own.
    pub fn resolve_process(&self, process: &str) -> (r: Option<NormalizedVolume>)
        ensures
            volume_value(r) == match self.process_volume(process@) {
                Some(v) => Some(v),
                None => self.unmapped_volume(),
            },
    {
        let mapped = self.resolve_process_exact(process);
        if mapped.is_some() {
            return mapped;
        }
        self.unmapped
    }

    /// The volume registered for exactly `target`; a process without a volume of its own
    /// resolves to `None`, not to the unmapped volume.
    pub fn resolve_exact(&self, target: &VolumeTarget) -> (r: Option<NormalizedVolume>)
        ensures
            volume_value(r) == self.lookup_exact(*target),
    {
        match target {
            VolumeTarget::Master => self.master,
            VolumeTarget::Mic => self.mic,
            VolumeTarget::Process(name) => self.resolve_process_exact(name.as_str()),
            VolumeTarget::Unmapped => self.unmapped,
        }
    }

    /// The volume that applies to `target`: for a process without a volume of its own, the
    /// unmapped volume (if set).
    pub fn resolve(&self, target: &VolumeTarget) -> (r: Option<NormalizedVolume>)
        ensures
            volume_value(r) == self.lookup(*target),
    {
        match target {
            VolumeTarget::Master => self.master,
            VolumeTarget::Mic => self.mic,
            VolumeTarget::Process(name) => self.resolve_process(name.as_str()),
            VolumeTarget::Unmapped => self.unmapped,
        }
    }

    /// Number of processes with a volume of their own.
    pub fn process_len(&self) -> (r: usize)
        ensures
            r == self.process_count(),
    {
        self.process_map.len()
    }

    /// Registers `volume` as the volume of `target`, replacing any earlier one.
    pub fn register(&mut self, target: VolumeTarget, volume: NormalizedVolume)
        ensures
            registers(*old(self), *final(self), target, volume@),
    {
        proof {
            use_type_invariant(&*self);
        }
        match target {
            VolumeTarget::Master => self.master = Some(volume),
            VolumeTarget::Mic => self.mic = Some(volume),
            VolumeTarget::Unmapped => self.unmapped = Some(volume),
            VolumeTarget::Process(name) => {
                let ghost old_map = self.process_map@;
                let ghost key = name@;
                let found = self.find_process(&name);
                let mut entries: Vec<(String, NormalizedVolume)> = Vec::new();
                std::mem::swap(&mut entries, &mut self.process_map);
                assert(entries@ == old_map);
                match found {
                    Some(i) => {
                        proof {
                            lemma_find_name(old_map, name@);
                        }
                        entries.set(i, (name, volume));
                        proof {
                            let new_map = entries@;
                            assert forall|a: int, b: int|
                                0 <= a < b < new_map.len() implies (#[trigger] new_map[a]).0@
                                != (#[trigger] new_map[b]).0@ by {
                                assert(old_map[a].0@ != old_map[b].0@);
                            }
                            assert forall|n: Seq<char>| #[trigger] find_name(new_map, n) == find_name(old_map, n) by {
                                lemma_find_name(new_map, n);
                                lemma_find_name(old_map, n);
                                if find_name(old_map, n) >= 0 {
                                    lemma_find_name_distinct(new_map, find_name(old_map, n));
                                }
                                if find_name(new_map, n) >= 0 {
                                    lemma_find_name_distinct(old_map, find_name(new_map, n));
                                }
                            }
                        }
                    },
                    None => {
                        proof {
                            lemma_find_name(old_map, name@);
                        }
                        entries.push((name, volume));
                        proof {
                            let new_map = entries@;
                            assert(new_map.drop_last() == old_map);
                            assert forall|a: int, b: int|
                                0 <= a < b < new_map.len() implies (#[trigger] new_map[a]).0@
                                != (#[trigger] new_map[b]).0@ by {
                                if b == new_map.len() - 1 {
                                    assert(new_map[a] == old_map[a]);
                                } else {
                                    assert(old_map[a].0@ != old_map[b].0@);
                                }
                            }
                            assert forall|n: Seq<char>| #[trigger] find_name(new_map, n) == if n == key {
                                old_map.len() as int
                            } else {
                                find_name(old_map, n)
                            } by {
                                lemma_find_name(old_map, n);
                            }
                        }
                    },
                }
                self.process_map = entries;
                proof {
                    assert forall|n: Seq<char>| #[trigger] self.process_volume(n) == if n == key {
                        Some(volume@)
                    } else {
                        old(self).process_volume(n)
                    } by {
                        lemma_find_name(old_map, n);
                        lemma_find_name(self.process_map@, n);
                        if n != key && find_name(old_map, n) >= 0 {
                            assert(self.process_map@[find_name(old_map, n)] == old_map[find_name(old_map, n)]);
                        }
                    }
                }
            },
        }
    }
}

impl Default for VolumeRegistry {
    fn default() -> (r: Self)
        ensures
            r.master_volume() is None,
            r.mic_volume() is None,
            r.unmapped_volume() is None,
            forall|name: Seq<char>| #[trigger] r.process_volume(name) is None,
            r.process_count() == 0,
    {
        VolumeRegistry::new()
    }
}

/// A volume registered for a target is what resolving exactly that target gives back, and
/// also what resolving it (with fallback) gives back.
pub proof fn lemma_read_after_register(
    before: VolumeRegistry,
    after: VolumeRegistry,
    target: VolumeTarget,
    volume: nat,
)
    requires
        registers(before, after, target, volume),
    ensures
        after.lookup_exact(target) == Some(volume),
        after.lookup(target) == Some(volume),
{
}

/// Registering a volume for one target leaves what every other slot resolves to unchanged.
pub proof fn lemma_register_leaves_others(
    before: VolumeRegistry,
    after: VolumeRegistry,
    target: VolumeTarget,
    volume: nat,
    other: VolumeTarget,
)
    requires
        registers(before, after, target, volume),
        !same_slot(target, other),
    ensures
        after.lookup_exact(other) == before.lookup_exact(other),
{
}

/// A process without a volume of its own resolves to the unmapped volume; any other target
/// resolves to exactly its own volume.
pub proof fn lemma_resolve_fallback(registry: VolumeRegistry, target: VolumeTarget)
    ensures
        target is Process ==> registry.lookup(target) == if registry.lookup_exact(target) is Some {
            registry.lookup_exact(target)
        } else {
            registry.lookup_exact(VolumeTarget::Unmapped)
        },
        !(target is Process) ==> registry.lookup(target) == registry.lookup_exact(target),
{
}

/// Registering a volume for a process that already has one replaces it without adding an
/// entry.
pub proof fn lemma_reregister_keeps_count(
    before: VolumeRegistry,
    after: VolumeRegistry,
    name: String,
    volume: nat,
)
    requires
        registers(before, after, VolumeTarget::Process(name), volume),
        before.process_volume(name@) is Some,
    ensures
        after.process_count() == before.process_count(),
{
}

} // verus!
