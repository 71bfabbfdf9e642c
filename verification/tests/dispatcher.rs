use deej_rs::pulse::dispatcher::{SubDispatcher, SubscriptionId, CHANNEL_BOUND};
use deej_rs::pulse::types::{
    Facility, InterestMask, InterestMaskSet, InterestMaskSetBuilder, Operation, SubscriptionEvent,
};
use futures::channel::mpsc::TryRecvError;

fn sink_mask() -> InterestMaskSet {
    InterestMaskSetBuilder::new().set(InterestMask::Sink).build()
}

fn source_mask() -> InterestMaskSet {
    InterestMaskSetBuilder::new().set(InterestMask::Source).build()
}

fn source_sink_mask() -> InterestMaskSet {
    InterestMaskSetBuilder::new()
        .set(InterestMask::Sink)
        .set(InterestMask::Source)
        .build()
}

fn subscription_event(facility: Facility) -> SubscriptionEvent {
    SubscriptionEvent {
        facility,
        operation: Operation::New,
        index: 0,
    }
}

fn dispatch_all(dispatch: &mut SubDispatcher) {
    dispatch.dispatch(subscription_event(Facility::Card));
    dispatch.dispatch(subscription_event(Facility::Client));
    dispatch.dispatch(subscription_event(Facility::Module));
    dispatch.dispatch(subscription_event(Facility::SampleCache));
    dispatch.dispatch(subscription_event(Facility::Server));
    dispatch.dispatch(subscription_event(Facility::Sink));
    dispatch.dispatch(subscription_event(Facility::SinkInput));
    dispatch.dispatch(subscription_event(Facility::Source));
    dispatch.dispatch(subscription_event(Facility::SourceOutput));
}

#[test]
fn test_register_ids() {
    let mut dispatch = SubDispatcher::new();

    let sub1 = dispatch.register(InterestMaskSet::none());
    let sub2 = dispatch.register(InterestMaskSet::none());
    let sub3 = dispatch.register(InterestMaskSet::none());

    assert!(sub1.id != sub2.id);
    assert!(sub2.id != sub3.id);
    assert!(sub1.id < sub2.id);
    assert!(sub2.id < sub3.id);
}

#[test]
fn test_register_grow_sequential() {
    let mut dispatch = SubDispatcher::new();

    let sub1 = dispatch.register(sink_mask());
    assert!(sub1.grew);

    let sub2 = dispatch.register(source_mask());
    assert!(sub2.grew);

    let sub3 = dispatch.register(source_mask());
    assert!(!sub3.grew);
}

#[test]
fn test_register_grow_partial_overlap() {
    let mut dispatch = SubDispatcher::new();

    let _sub1 = dispatch.register(sink_mask());
    let sub2 = dispatch.register(source_sink_mask());
    assert!(sub2.grew);
}

#[test]
fn test_unregister_unknown_id() {
    let mut dispatch = SubDispatcher::new();

    assert!(
        !dispatch.unregister(1),
        "Unregistering an unknown sub should not shrink the mask"
    );
}

#[test]
fn test_unregister_double() {
    let mut dispatch = SubDispatcher::new();

    let sub1 = dispatch.register(sink_mask());
    assert!(dispatch.unregister(sub1.id));
    assert!(
        !dispatch.unregister(sub1.id),
        "Double unregisters should not shrink the mask"
    );
}

#[test]
fn test_unregister_shared_interest() {
    let mut dispatch = SubDispatcher::new();

    let sub1 = dispatch.register(sink_mask());
    let sub2 = dispatch.register(sink_mask());
    assert!(
        !dispatch.unregister(sub1.id),
        "Unregistering a mask with duplicate interest as an active sub should not shrink the mask"
    );
    assert!(
        dispatch.unregister(sub2.id),
        "Unregistering the last sub with a mask should shrink the mask"
    );
}

#[test]
fn test_unregister_disjoint_interest() {
    let mut dispatch = SubDispatcher::new();

    let sub1 = dispatch.register(sink_mask());
    let _sub2 = dispatch.register(source_mask());
    assert!(
        dispatch.unregister(sub1.id),
        "Unregistering disjoint subs should cause the mask to shrink"
    );
}

#[test]
fn test_post_unregister_dispatch() {
    let mut dispatch = SubDispatcher::new();

    let mut sub1 = dispatch.register(sink_mask());
    let mut sub2 = dispatch.register(sink_mask());
    let mut sub3 = dispatch.register(sink_mask());

    dispatch.unregister(sub2.id);
    dispatch.dispatch(subscription_event(Facility::Sink));

    assert_eq!(
        sub1.rx.try_recv().unwrap(),
        subscription_event(Facility::Sink),
        "The still-active subscription should recieve the event"
    );
    assert_eq!(
        sub2.rx.try_recv().unwrap_err(),
        TryRecvError::Closed,
        "The unregistered subscription should be closed"
    );
    assert_eq!(
        sub3.rx.try_recv().unwrap(),
        subscription_event(Facility::Sink),
        "The still-active subscription should receive the event"
    )
}

#[test]
fn test_dispatch_no_interest() {
    let mut dispatch = SubDispatcher::new();

    let mut sub = dispatch.register(InterestMaskSet::none());

    dispatch_all(&mut dispatch);

    assert_eq!(
        sub.rx.try_recv().unwrap_err(),
        TryRecvError::Empty,
        "Sub with empty interest should not receive any events"
    );
}

#[test]
fn test_dispatch_filters_by_interest() {
    let mut dispatch = SubDispatcher::new();

    let mut sub = dispatch.register(sink_mask());

    dispatch.dispatch(subscription_event(Facility::Sink));
    assert_eq!(
        sub.rx.try_recv().unwrap(),
        subscription_event(Facility::Sink),
        "Sub should receieve events it's subscribed to"
    );

    dispatch.dispatch(subscription_event(Facility::Source));
    assert_eq!(
        sub.rx.try_recv().unwrap_err(),
        TryRecvError::Empty,
        "Sub shouldn't receive events it isn't subscribed to"
    );
}

#[test]
fn test_dispatch_independent_subs() {
    let mut dispatch = SubDispatcher::new();

    let mut sub1 = dispatch.register(sink_mask());
    let mut sub2 = dispatch.register(sink_mask());

    dispatch.dispatch(subscription_event(Facility::Sink));
    sub1.rx.try_recv().unwrap();
    assert_eq!(
        sub2.rx.try_recv().unwrap(),
        subscription_event(Facility::Sink),
        "Independent subs should receive events independently"
    );
}

#[test]
fn test_dispatch_full_channel_doesnt_panic() {
    let mut dispatch = SubDispatcher::new();
    let _sub = dispatch.register(sink_mask());
    for _ in 0..CHANNEL_BOUND {
        dispatch.dispatch(subscription_event(Facility::Sink));
    }

    // This shouldn't panic or block
    dispatch.dispatch(subscription_event(Facility::Sink));
}

#[test]
fn test_current_mask() {
    let mut dispatch = SubDispatcher::new();
    assert_eq!(
        dispatch.current_mask(),
        InterestMaskSet::none(),
        "Empty dispatcher should have an empty mask"
    );

    let sub1 = dispatch.register(sink_mask());
    let sub2 = dispatch.register(source_mask());
    assert_eq!(
        dispatch.current_mask(),
        source_sink_mask(),
        "Dispatcher with disjoint subscription interest should have the union of those masks"
    );

    let sub3 = dispatch.register(source_sink_mask());
    assert_eq!(
        dispatch.current_mask(),
        source_sink_mask(),
        "Dispatcher with overlapping subscription interests should have the union of those masks"
    );

    dispatch.unregister(sub1.id);
    assert_eq!(
        dispatch.current_mask(),
        source_sink_mask(),
        "Removing a sub with entirely overlapping interests shouldn't affect mask"
    );

    dispatch.unregister(sub3.id);
    assert_eq!(
        dispatch.current_mask(),
        source_mask(),
        "Removing a sub with partially overlapping interests should only affect non-overlapping interests"
    );

    let sub4 = dispatch.register(sink_mask());
    dispatch.unregister(sub4.id);
    assert_eq!(
        dispatch.current_mask(),
        source_mask(),
        "Removing a subscription with disjoin interest should remove it's interests"
    );

    dispatch.unregister(sub2.id);
    assert_eq!(
        dispatch.current_mask(),
        InterestMaskSet::none(),
        "Removing all subs from a dispatcher should leave an empty mask"
    );
}

#[test]
fn ids_start_at_zero_and_count_up() {
    let mut dispatch = SubDispatcher::new();
    let ids: Vec<SubscriptionId> = (0..5)
        .map(|_| dispatch.register(InterestMaskSet::none()).id)
        .collect();
    assert_eq!(ids, vec![0, 1, 2, 3, 4]);
}

#[test]
fn ids_are_not_reused_after_unregister() {
    let mut dispatch = SubDispatcher::new();
    let first = dispatch.register(sink_mask());
    assert!(dispatch.unregister(first.id));
    let second = dispatch.register(sink_mask());
    assert_eq!(second.id, first.id + 1);
    assert!(second.grew);
}

#[test]
fn empty_mask_never_grows_or_shrinks() {
    let mut dispatch = SubDispatcher::new();
    let sub = dispatch.register(InterestMaskSet::none());
    assert!(!sub.grew);
    assert!(!dispatch.unregister(sub.id));
    assert_eq!(dispatch.current_mask(), InterestMaskSet::none());
}

#[test]
fn full_channel_keeps_the_earliest_events() {
    let mut dispatch = SubDispatcher::new();
    let mut sub = dispatch.register(sink_mask());
    for i in 0..(CHANNEL_BOUND as u32 + 5) {
        let mut event = subscription_event(Facility::Sink);
        event.index = i;
        dispatch.dispatch(event);
    }
    let mut received = Vec::new();
    while let Ok(event) = sub.rx.try_recv() {
        received.push(event.index);
    }
    // the channel holds its bound plus one slot for its single sender
    let expected: Vec<u32> = (0..(CHANNEL_BOUND as u32 + 1)).collect();
    assert_eq!(received, expected);
}

#[test]
fn dispatch_after_receiver_dropped_does_not_panic() {
    let mut dispatch = SubDispatcher::new();
    let sub = dispatch.register(sink_mask());
    drop(sub.rx);
    dispatch.dispatch(subscription_event(Facility::Sink));
    assert_eq!(dispatch.current_mask(), sink_mask());
}

#[test]
fn register_with_update_reports_new_union_only_when_grown() {
    let mut dispatch = SubDispatcher::new();
    let (first, update) = dispatch.register_with_update(sink_mask());
    assert!(first.grew);
    assert_eq!(update, Some(sink_mask()));

    let (second, update) = dispatch.register_with_update(sink_mask());
    assert!(!second.grew);
    assert_eq!(update, None);

    let (_, update) = dispatch.register_with_update(source_mask());
    assert_eq!(update, Some(source_sink_mask()));
    assert_eq!(dispatch.subscription_count(), 3);
}

#[test]
fn unregister_with_update_reports_new_union_only_when_shrunk() {
    let mut dispatch = SubDispatcher::new();
    let (sink1, _) = dispatch.register_with_update(sink_mask());
    let (sink2, _) = dispatch.register_with_update(sink_mask());
    let (source, _) = dispatch.register_with_update(source_mask());

    assert_eq!(dispatch.unregister_with_update(sink1.id), None);
    assert_eq!(dispatch.unregister_with_update(sink2.id), Some(source_mask()));
    assert_eq!(dispatch.unregister_with_update(sink2.id), None);
    assert_eq!(
        dispatch.unregister_with_update(source.id),
        Some(InterestMaskSet::none())
    );
    assert_eq!(dispatch.subscription_count(), 0);
}

#[test]
fn recipients_are_the_interested_subscriptions_in_order() {
    let mut dispatch = SubDispatcher::new();
    let a = dispatch.register(sink_mask());
    let b = dispatch.register(source_mask());
    let c = dispatch.register(source_sink_mask());
    let _d = dispatch.register(InterestMaskSet::none());

    assert_eq!(dispatch.recipients(Facility::Sink), vec![a.id, c.id]);
    assert_eq!(dispatch.recipients(Facility::Source), vec![b.id, c.id]);
    assert!(dispatch.recipients(Facility::Card).is_empty());

    // the last subscription takes the place of a removed one
    dispatch.unregister(a.id);
    let e = dispatch.register(sink_mask());
    assert_eq!(dispatch.recipients(Facility::Sink), vec![c.id, e.id]);
}

#[test]
fn events_reach_exactly_the_recipients() {
    let mut dispatch = SubDispatcher::new();
    let mut sink = dispatch.register(sink_mask());
    let mut source = dispatch.register(source_mask());
    let mut both = dispatch.register(source_sink_mask());
    let recipients = dispatch.recipients(Facility::Source);
    dispatch.dispatch(subscription_event(Facility::Source));

    for (id, rx) in [
        (sink.id, &mut sink.rx),
        (source.id, &mut source.rx),
        (both.id, &mut both.rx),
    ] {
        assert_eq!(rx.try_recv().is_ok(), recipients.contains(&id));
    }
}
