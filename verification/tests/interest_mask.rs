use deej_rs::pulse::types::{
    Facility, InterestMask, InterestMaskSet, InterestMaskSetBuilder, InterestMaskSetIter,
};

const ALL_VARIANTS: [InterestMask; 9] = [
    InterestMask::Sink,
    InterestMask::Source,
    InterestMask::SinkInput,
    InterestMask::SourceOutput,
    InterestMask::Module,
    InterestMask::Client,
    InterestMask::SampleCache,
    InterestMask::Server,
    InterestMask::Card,
];

/// Drains an iterator into a vector.
fn collect(mut iter: InterestMaskSetIter) -> Vec<InterestMask> {
    let mut out = Vec::new();
    while let Some(m) = iter.next() {
        out.push(m);
    }
    out
}

#[test]
fn none_contains_nothing() {
    let set = InterestMaskSet::none();
    for interest in InterestMaskSet::all().to_vec() {
        assert!(!set.contains(interest));
    }
    assert_eq!(collect(set.iter()).len(), 0);
}

#[test]
fn all_contains_everything() {
    let set = InterestMaskSet::all();
    for interest in ALL_VARIANTS {
        assert!(set.contains(interest));
    }
    assert_eq!(collect(set.iter()).len(), ALL_VARIANTS.len());
}

#[test]
fn default_is_none() {
    assert_eq!(InterestMaskSet::default(), InterestMaskSet::none());
}

#[test]
fn builder_set_and_unset() {
    let set = InterestMaskSetBuilder::new()
        .set(InterestMask::Sink)
        .set(InterestMask::Card)
        .build();

    assert!(set.contains(InterestMask::Sink));
    assert!(set.contains(InterestMask::Card));
    assert!(!set.contains(InterestMask::Source));

    let set = InterestMaskSetBuilder::new()
        .set_all(&[InterestMask::Sink, InterestMask::Card])
        .build();
    assert!(set.contains(InterestMask::Sink));
    assert!(set.contains(InterestMask::Card));

    let unset = InterestMaskSetBuilder::new()
        .set_all(&[InterestMask::Sink, InterestMask::Card])
        .unset(InterestMask::Sink)
        .build();
    assert!(!unset.contains(InterestMask::Sink));
    assert!(unset.contains(InterestMask::Card));

    let unset_all = InterestMaskSetBuilder::new()
        .set_all(&InterestMaskSet::all().to_vec())
        .unset_all(&[InterestMask::Sink, InterestMask::Source])
        .build();
    assert!(!unset_all.contains(InterestMask::Sink));
    assert!(!unset_all.contains(InterestMask::Source));
    assert!(unset_all.contains(InterestMask::Card));
}

#[test]
fn bitor_two_masks_builds_set() {
    let set = InterestMask::Sink | InterestMask::Source;
    assert!(set.contains(InterestMask::Sink));
    assert!(set.contains(InterestMask::Source));
    assert!(!set.contains(InterestMask::Card));
}

#[test]
fn bitor_set_with_mask_adds_entry() {
    let set = InterestMaskSet::none() | InterestMask::Module;
    assert!(set.contains(InterestMask::Module));
    assert!(!set.contains(InterestMask::Client));

    let set = set | InterestMask::Client;
    assert!(set.contains(InterestMask::Module));
    assert!(set.contains(InterestMask::Client));
}

#[test]
fn iter_yields_only_set_members_in_order() {
    let set = InterestMaskSetBuilder::new()
        .set(InterestMask::Source)
        .set(InterestMask::Server)
        .build();

    let members = collect(set.iter());
    assert_eq!(members, vec![InterestMask::Source, InterestMask::Server]);
}

#[test]
fn iter_by_ref_matches_owned_iter() {
    let set = InterestMaskSetBuilder::new()
        .set(InterestMask::Sink)
        .set(InterestMask::Client)
        .build();

    let via_ref = collect((&set).iter());
    let via_owned = set.to_vec();
    assert_eq!(via_ref, via_owned);
}

#[test]
fn size_hint_is_consistent_with_remaining_items() {
    let set = InterestMaskSet::all();
    let mut iter = set.iter();
    let total = 9;

    for expected_remaining in (0..=total).rev() {
        let (_, upper) = iter.size_hint();
        assert_eq!(upper, Some(expected_remaining));
        iter.next();
    }
}

#[test]
fn iter_ends_with_none_and_stays_there() {
    let set = InterestMask::Card | InterestMask::Sink;
    let mut iter = set.iter();
    assert_eq!(iter.next(), Some(InterestMask::Sink));
    assert_eq!(iter.next(), Some(InterestMask::Card));
    assert_eq!(iter.next(), None);
    assert_eq!(iter.next(), None);
    assert_eq!(iter.size_hint(), (0, Some(0)));
}

#[test]
fn sparse_set_size_hint_counts_positions() {
    let set = InterestMaskSetBuilder::new().set(InterestMask::Source).build();
    let mut iter = set.iter();
    assert_eq!(iter.size_hint(), (0, Some(9)));
    assert_eq!(iter.next(), Some(InterestMask::Source));
    assert_eq!(iter.size_hint(), (0, Some(7)));
    assert_eq!(iter.next(), None);
    assert_eq!(iter.size_hint(), (0, Some(0)));
}

#[test]
fn to_vec_follows_fixed_order() {
    assert_eq!(InterestMaskSet::all().to_vec(), ALL_VARIANTS.to_vec());
    assert_eq!(InterestMaskSet::none().to_vec(), Vec::<InterestMask>::new());
    let set = InterestMask::Card | InterestMask::SinkInput;
    assert_eq!(set.to_vec(), vec![InterestMask::SinkInput, InterestMask::Card]);
}

#[test]
fn index_and_at_are_inverse() {
    for (i, m) in ALL_VARIANTS.iter().enumerate() {
        assert_eq!(m.index(), i);
        assert_eq!(InterestMask::at(i), *m);
    }
}

#[test]
fn builder_from_set_keeps_members() {
    let set = InterestMask::Module | InterestMask::Server;
    let rebuilt = InterestMaskSetBuilder::from(set).set(InterestMask::Card).build();
    assert_eq!(
        rebuilt.to_vec(),
        vec![InterestMask::Module, InterestMask::Server, InterestMask::Card]
    );
    assert_eq!(InterestMaskSetBuilder::default().build(), InterestMaskSet::none());
}

#[test]
fn unset_all_of_absent_members_changes_nothing() {
    let set = InterestMaskSetBuilder::new()
        .set(InterestMask::Client)
        .unset_all(&[InterestMask::Sink, InterestMask::Card])
        .build();
    assert_eq!(set.to_vec(), vec![InterestMask::Client]);
}

#[test]
fn facility_maps_to_its_interest() {
    let facilities = [
        Facility::Sink,
        Facility::Source,
        Facility::SinkInput,
        Facility::SourceOutput,
        Facility::Module,
        Facility::Client,
        Facility::SampleCache,
        Facility::Server,
        Facility::Card,
    ];
    for (f, m) in facilities.iter().zip(ALL_VARIANTS.iter()) {
        assert_eq!(f.interest(), *m);
    }
}
