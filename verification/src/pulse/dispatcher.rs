//! Routing of subscription events and tracking of the union of all interests.
use vstd::prelude::*;

use futures::channel::mpsc::{Receiver, Sender};

use crate::pulse::channel::{bounded_channel, receiver_channel, sender_channel};
use crate::pulse::types::{
    facility_interest, interest_at, Facility, interest_index, lemma_interest_index, InterestMask,
    InterestMaskSet, SubscriptionEvent,
};

verus! {

/// Identifies one registered subscription.
pub type SubscriptionId = u64;

/// How many undelivered events each subscription's channel holds before further events for it
/// are dropped.
pub const CHANNEL_BOUND: usize = 32;

/// How many of the subscriptions `subs` are interested in `m`.
pub open spec fn count_interested(subs: Seq<(SubscriptionId, InterestMaskSet)>, m: InterestMask) -> nat
    decreases subs.len(),
{
    if subs.len() == 0 {
        0
    } else {
        count_interested(subs.drop_last(), m) + if subs.last().1.has(m) {
            1nat
        } else {
            0nat
        }
    }
}

/// The ids of the subscriptions of `subs` that are interested in `m`, in dispatch order.
pub open spec fn interested_ids(subs: Seq<(SubscriptionId, InterestMaskSet)>, m: InterestMask) -> Seq<
    SubscriptionId,
>
    decreases subs.len(),
{
    if subs.len() == 0 {
        Seq::empty()
    } else {
        let prev = interested_ids(subs.drop_last(), m);
        if subs.last().1.has(m) {
            prev.push(subs.last().0)
        } else {
            prev
        }
    }
}

/// Whether some subscription of `subs` is interested in `m`.
pub open spec fn any_interested(subs: Seq<(SubscriptionId, InterestMaskSet)>, m: InterestMask) -> bool {
    exists|i: int| 0 <= i < subs.len() && (#[trigger] subs[i]).1.has(m)
}

/// The union of the interest masks of `subs`.
pub open spec fn union_of(subs: Seq<(SubscriptionId, InterestMaskSet)>) -> InterestMaskSet {
    InterestMaskSet::from_fn(|m: InterestMask| any_interested(subs, m))
}

/// Position of the first subscription of `subs` with id `id`, or `-1` when there is none.
pub open spec fn index_of(subs: Seq<(SubscriptionId, InterestMaskSet)>, id: SubscriptionId) -> int
    decreases subs.len(),
{
    if subs.len() == 0 {
        -1
    } else {
        let p = index_of(subs.drop_last(), id);
        if p >= 0 {
            p
        } else if subs.last().0 == id {
            subs.len() - 1
        } else {
            -1
        }
    }
}

/// `subs` with the entry at `pos` replaced by the last one, and the last one dropped.
pub open spec fn swap_removed(
    subs: Seq<(SubscriptionId, InterestMaskSet)>,
    pos: int,
) -> Seq<(SubscriptionId, InterestMaskSet)> {
    subs.update(pos, subs.last()).drop_last()
}

/// The id that follows `id`, wrapping around after the largest one.
pub open spec fn next_after(id: SubscriptionId) -> SubscriptionId {
    if id == u64::MAX {
        0
    } else {
        (id + 1) as u64
    }
}

/// A subscription is interested in `m` exactly when its count is positive.
pub proof fn lemma_count_positive(subs: Seq<(SubscriptionId, InterestMaskSet)>, m: InterestMask)
    ensures
        count_interested(subs, m) > 0 <==> any_interested(subs, m),
        count_interested(subs, m) <= subs.len(),
    decreases subs.len(),
{
    if subs.len() > 0 {
        let t = subs.drop_last();
        lemma_count_positive(t, m);
        if any_interested(t, m) {
            let i = choose|i: int| 0 <= i < t.len() && (#[trigger] t[i]).1.has(m);
            assert(subs[i] == t[i]);
        }
        if any_interested(subs, m) && !subs.last().1.has(m) {
            let i = choose|i: int| 0 <= i < subs.len() && (#[trigger] subs[i]).1.has(m);
            assert(i < t.len());
            assert(t[i] == subs[i]);
        }
        if subs.last().1.has(m) {
            assert(subs[subs.len() - 1] == subs.last());
        }
    }
}

/// Replacing one entry changes the count by what the old and the new entry contribute.
proof fn lemma_count_update(
    subs: Seq<(SubscriptionId, InterestMaskSet)>,
    pos: int,
    v: (SubscriptionId, InterestMaskSet),
    m: InterestMask,
)
    requires
        0 <= pos < subs.len(),
    ensures
        count_interested(subs.update(pos, v), m) + (if subs[pos].1.has(m) {
            1nat
        } else {
            0nat
        }) == count_interested(subs, m) + (if v.1.has(m) {
            1nat
        } else {
            0nat
        }),
    decreases subs.len(),
{
    let u = subs.update(pos, v);
    if pos == subs.len() - 1 {
        assert(u.drop_last() == subs.drop_last());
    } else {
        lemma_count_update(subs.drop_last(), pos, v, m);
        assert(u.drop_last() == subs.drop_last().update(pos, v));
        assert(u.last() == subs.last());
    }
}

/// Removing the entry at `pos` by swapping in the last one lowers the count by what that
/// entry contributed.
proof fn lemma_count_swap_removed(
    subs: Seq<(SubscriptionId, InterestMaskSet)>,
    pos: int,
    m: InterestMask,
)
    requires
        0 <= pos < subs.len(),
    ensures
        count_interested(swap_removed(subs, pos), m) + (if subs[pos].1.has(m) {
            1nat
        } else {
            0nat
        }) == count_interested(subs, m),
{
    let u = subs.update(pos, subs.last());
    lemma_count_update(subs, pos, subs.last(), m);
    assert(u.last() == subs.last());
}

/// Characterizes [`index_of`]: the first entry with the id, or `-1` when no entry has it.
pub proof fn lemma_index_of(subs: Seq<(SubscriptionId, InterestMaskSet)>, id: SubscriptionId)
    ensures
        -1 <= index_of(subs, id) < subs.len(),
        index_of(subs, id) == -1 <==> forall|j: int| 0 <= j < subs.len() ==> (#[trigger] subs[j]).0 != id,
        index_of(subs, id) >= 0 ==> subs[index_of(subs, id)].0 == id && forall|j: int|
            0 <= j < index_of(subs, id) ==> (#[trigger] subs[j]).0 != id,
    decreases subs.len(),
{
    if subs.len() > 0 {
        let t = subs.drop_last();
        lemma_index_of(t, id);
        let p = index_of(t, id);
        if p >= 0 {
            assert(subs[p] == t[p]);
            assert forall|j: int| 0 <= j < p implies (#[trigger] subs[j]).0 != id by {
                assert(subs[j] == t[j]);
            }
        } else if subs.last().0 == id {
            assert(subs[subs.len() - 1].0 == id);
            assert forall|j: int| 0 <= j < subs.len() - 1 implies (#[trigger] subs[j]).0 != id by {
                assert(subs[j] == t[j]);
            }
        } else {
            assert forall|j: int| 0 <= j < subs.len() implies (#[trigger] subs[j]).0 != id by {
                if j < subs.len() - 1 {
                    assert(subs[j] == t[j]);
                }
            }
        }
    }
}

/// Adding a subscription adds its interests to the union.
proof fn lemma_union_push(
    subs: Seq<(SubscriptionId, InterestMaskSet)>,
    entry: (SubscriptionId, InterestMaskSet),
    m: InterestMask,
)
    ensures
        union_of(subs.push(entry)).has(m) == (union_of(subs).has(m) || entry.1.has(m)),
{
    let n = subs.push(entry);
    lemma_count_positive(subs, m);
    lemma_count_positive(n, m);
    assert(n.drop_last() == subs);
}

/// The union grows by adding `mask` exactly when `mask` holds an interest that no
/// subscription had.
proof fn lemma_register_grew(
    subs: Seq<(SubscriptionId, InterestMaskSet)>,
    entry: (SubscriptionId, InterestMaskSet),
    grew: bool,
)
    requires
        grew == exists|j: int|
            0 <= j < 9 && entry.1.has(interest_at(j)) && count_interested(
                subs,
                #[trigger] interest_at(j),
            ) == 0,
    ensures
        grew == (union_of(subs.push(entry)) != union_of(subs)),
{
    let before = union_of(subs);
    let after = union_of(subs.push(entry));
    if grew {
        let j = choose|j: int|
            0 <= j < 9 && entry.1.has(interest_at(j)) && count_interested(
                subs,
                #[trigger] interest_at(j),
            ) == 0;
        lemma_count_positive(subs, interest_at(j));
        lemma_union_push(subs, entry, interest_at(j));
        assert(after.has(interest_at(j)) != before.has(interest_at(j)));
    } else {
        assert forall|m: InterestMask| after.has(m) == before.has(m) by {
            lemma_interest_index(m);
            lemma_count_positive(subs, m);
            lemma_union_push(subs, entry, m);
            let j = interest_index(m) as int;
            assert(interest_at(j) == m);
        }
        after.lemma_ext_equal(before);
    }
}

/// One registered subscription: its id, its interests, the channel its events go to, and the
/// events handed to that channel so far.
struct Subscriber {
    id: SubscriptionId,
    mask: InterestMaskSet,
    tx: Sender<SubscriptionEvent>,
    offered: Ghost<Seq<SubscriptionEvent>>,
}

/// Offers `event` to the channel of `sub` with `Sender::try_send`, which queues it unless the
/// channel is full or its receiver is gone; which of these happens depends on the channel's
/// state and is not reported. Claimed: the event is recorded as the last one offered to `sub`,
/// whose sender stays a sending half of the same channel, and whose id and interests are
/// unchanged.
#[verifier::external_body]
fn offer(sub: &mut Subscriber, event: SubscriptionEvent)
    ensures
        final(sub).id == old(sub).id,
        final(sub).mask == old(sub).mask,
        final(sub).offered@ == old(sub).offered@.push(event),
        sender_channel(final(sub).tx) == sender_channel(old(sub).tx),
{
    let _ = sub.tx.try_send(event);
}

/// What [`SubDispatcher::register`] hands back: the new subscription's id, the receiving end of
/// its event channel, and whether the union of all interests grew.
pub struct RegisterResult {
    pub id: SubscriptionId,
    pub rx: Receiver<SubscriptionEvent>,
    pub grew: bool,
}

/// Dispatches [`SubscriptionEvent`]s to subscriptions according to their interests, and tracks
/// the union of every subscription's interests.
pub struct SubDispatcher {
    next_id: u64,
    interest_count: Vec<usize>,
    subscribers: Vec<Subscriber>,
}

impl SubDispatcher {
    /// The registered subscriptions, as `(id, interests)`, in dispatch order.
    pub closed spec fn subscriptions(&self) -> Seq<(SubscriptionId, InterestMaskSet)> {
        self.subscribers@.map_values(|s: Subscriber| (s.id, s.mask))
    }

    /// For each registered subscription, in dispatch order, the events handed to its channel
    /// since it was registered, oldest first. Each was queued unless the channel was full or its
    /// receiver gone at that moment.
    pub closed spec fn offered(&self) -> Seq<Seq<SubscriptionEvent>> {
        self.subscribers@.map_values(|s: Subscriber| s.offered@)
    }

    /// For each registered subscription, in dispatch order, the channel its events go to (as
    /// [`sender_channel`] identifies it).
    pub closed spec fn channels(&self) -> Seq<int> {
        self.subscribers@.map_values(|s: Subscriber| sender_channel(s.tx))
    }

    /// The id the next registration receives.
    pub closed spec fn next_id(&self) -> SubscriptionId {
        self.next_id
    }

    /// Internal consistency: one counter per interest, holding how many subscriptions are
    /// interested in it.
    pub closed spec fn wf(&self) -> bool {
        &&& self.interest_count@.len() == 9
        &&& forall|k: int|
            0 <= k < 9 ==> #[trigger] self.interest_count@[k] == count_interested(
                self.subscriptions(),
                interest_at(k),
            )
    }

    /// A dispatcher with no subscription, whose first id is zero.
    pub fn new() -> (r: Self)
        ensures
            r.wf(),
            r.subscriptions() == Seq::<(SubscriptionId, InterestMaskSet)>::empty(),
            r.offered() == Seq::<Seq<SubscriptionEvent>>::empty(),
            r.channels() == Seq::<int>::empty(),
            r.next_id() == 0,
            ids_below(r.subscriptions(), r.next_id()),
            ids_distinct(r.subscriptions()),
    {
        let mut interest_count: Vec<usize> = Vec::new();
        let mut k: usize = 0;
        while k < 9
            invariant
                k <= 9,
                interest_count@.len() == k,
                forall|j: int| 0 <= j < k ==> #[trigger] interest_count@[j] == 0,
            decreases 9 - k,
        {
            interest_count.push(0);
            k = k + 1;
        }
        let r = SubDispatcher { next_id: 0, interest_count, subscribers: Vec::new() };
        assert(r.subscriptions() == Seq::<(SubscriptionId, InterestMaskSet)>::empty());
        assert(r.offered() == Seq::<Seq<SubscriptionEvent>>::empty());
        assert(r.channels() == Seq::<int>::empty());
        r
    }

    /// Registers a subscription interested in `mask`: it gets a fresh id and a new event
    /// channel, whose receiving end `rx` is handed back, and goes last in dispatch order with no
    /// event offered yet. `grew` tells whether the union of all interests grew. Until ids wrap
    /// around after the largest one, the new id is one that no subscription has.
    pub fn register(&mut self, mask: InterestMaskSet) -> (r: RegisterResult)
        requires
            old(self).wf(),
            old(self).subscriptions().len() < usize::MAX,
        ensures
            final(self).wf(),
            r.id == old(self).next_id(),
            final(self).next_id() == next_after(old(self).next_id()),
            final(self).subscriptions() == old(self).subscriptions().push((r.id, mask)),
            final(self).offered() == old(self).offered().push(Seq::<SubscriptionEvent>::empty()),
            final(self).channels() == old(self).channels().push(receiver_channel(r.rx)),
            ids_below(old(self).subscriptions(), old(self).next_id()) && ids_distinct(
                old(self).subscriptions(),
            ) && old(self).next_id() < u64::MAX ==> {
                &&& index_of(old(self).subscriptions(), r.id) == -1
                &&& ids_below(final(self).subscriptions(), final(self).next_id())
                &&& ids_distinct(final(self).subscriptions())
            },
            r.grew == (union_of(final(self).subscriptions()) != union_of(old(self).subscriptions())),
    {
        let ghost subs = self.subscriptions();
        let ghost offered = self.offered();
        let ghost channels = self.channels();
        let ghost new_subs = subs.push((self.next_id, mask));
        let (tx, rx) = bounded_channel(CHANNEL_BOUND);
        let id = self.next_id;
        self.next_id = if self.next_id == u64::MAX {
            0
        } else {
            self.next_id + 1
        };
        let mut grew = false;
        let mut k: usize = 0;
        while k < 9
            invariant
                k <= 9,
                self.interest_count@.len() == 9,
                subs == self.subscriptions(),
                offered == self.offered(),
                offered == old(self).offered(),
                channels == self.channels(),
                channels == old(self).channels(),
                new_subs == subs.push((id, mask)),
                subs.len() < usize::MAX,
                self.next_id == next_after(id),
                id == old(self).next_id(),
                forall|j: int|
                    0 <= j < k ==> #[trigger] self.interest_count@[j] == count_interested(
                        new_subs,
                        interest_at(j),
                    ),
                forall|j: int|
                    k <= j < 9 ==> #[trigger] self.interest_count@[j] == count_interested(
                        subs,
                        interest_at(j),
                    ),
                grew == exists|j: int|
                    0 <= j < k && mask.has(interest_at(j)) && count_interested(
                        subs,
                        #[trigger] interest_at(j),
                    ) == 0,
            decreases 9 - k,
        {
            let m = InterestMask::at(k);
            proof {
                assert(new_subs.drop_last() == subs);
                lemma_count_positive(subs, m);
            }
            if mask.contains(m) {
                let count = self.interest_count[k];
                proof {
                    lemma_count_positive(new_subs, m);
                }
                if count == 0 {
                    grew = true;
                }
                self.interest_count.set(k, count + 1);
            }
            k = k + 1;
        }
        self.subscribers.push(Subscriber { id, mask, tx, offered: Ghost(Seq::empty()) });
        proof {
            assert(self.subscriptions() == new_subs);
            assert(self.offered() == offered.push(Seq::<SubscriptionEvent>::empty()));
            assert(self.channels() == channels.push(receiver_channel(rx)));
            lemma_register_grew(subs, (id, mask), grew);
            if ids_below(subs, id) && ids_distinct(subs) && id < u64::MAX {
                lemma_register_fresh_id(subs, id, mask);
            }
        }
        RegisterResult { id, rx, grew }
    }

    /// Removes the first subscription with id `id` (the last subscription takes its place in
    /// dispatch order) and drops the sending end of its channel, the only one there is, so its
    /// receiver then finds the channel closed. Returns whether the union of all interests
    /// shrank; an unknown id changes nothing and returns `false`.
    pub fn unregister(&mut self, id: SubscriptionId) -> (r: bool)
        requires
            old(self).wf(),
        ensures
            final(self).wf(),
            final(self).next_id() == old(self).next_id(),
            index_of(old(self).subscriptions(), id) == -1 ==> !r && final(self).subscriptions()
                == old(self).subscriptions(),
            index_of(old(self).subscriptions(), id) == -1 ==> final(self).offered() == old(
                self,
            ).offered() && final(self).channels() == old(self).channels(),
            ids_below(old(self).subscriptions(), old(self).next_id()) && ids_distinct(
                old(self).subscriptions(),
            ) ==> ids_below(final(self).subscriptions(), final(self).next_id()) && ids_distinct(
                final(self).subscriptions(),
            ) && index_of(final(self).subscriptions(), id) == -1,
            index_of(old(self).subscriptions(), id) >= 0 ==> {
                &&& final(self).subscriptions() == swap_removed(
                    old(self).subscriptions(),
                    index_of(old(self).subscriptions(), id),
                )
                &&& final(self).offered() == old(self).offered().update(
                    index_of(old(self).subscriptions(), id),
                    old(self).offered().last(),
                ).drop_last()
                &&& final(self).channels() == old(self).channels().update(
                    index_of(old(self).subscriptions(), id),
                    old(self).channels().last(),
                ).drop_last()
                &&& r == (union_of(final(self).subscriptions()) != union_of(
                    old(self).subscriptions(),
                ))
            },
    {
        let ghost subs = self.subscriptions();
        let ghost offered = self.offered();
        let ghost channels = self.channels();
        proof {
            lemma_index_of(subs, id);
        }
        let mut pos: usize = 0;
        while pos < self.subscribers.len() && self.subscribers[pos].id != id
            invariant
                pos <= self.subscribers@.len(),
                subs == self.subscriptions(),
                forall|j: int| 0 <= j < pos ==> (#[trigger] subs[j]).0 != id,
            decreases self.subscribers@.len() - pos,
        {
            assert(subs[pos as int].0 == self.subscribers@[pos as int].id);
            pos = pos + 1;
        }
        if pos == self.subscribers.len() {
            return false;
        }
        assert(subs[pos as int].0 == id);
        assert(index_of(subs, id) == pos);
        let removed = self.subscribers.swap_remove(pos);
        let mask = removed.mask;
        let ghost new_subs = swap_removed(subs, pos as int);
        assert(self.subscriptions() == new_subs);
        let ghost new_offered = offered.update(pos as int, offered.last()).drop_last();
        assert(self.offered() == new_offered);
        let ghost new_channels = channels.update(pos as int, channels.last()).drop_last();
        assert(self.channels() == new_channels);
        let mut shrank = false;
        let mut k: usize = 0;
        while k < 9
            invariant
                k <= 9,
                self.interest_count@.len() == 9,
                subs.len() > 0,
                0 <= pos < subs.len(),
                new_subs == swap_removed(subs, pos as int),
                new_subs == self.subscriptions(),
                new_offered == self.offered(),
                new_channels == self.channels(),
                mask == subs[pos as int].1,
                self.next_id == old(self).next_id(),
                forall|j: int|
                    0 <= j < k ==> #[trigger] self.interest_count@[j] == count_interested(
                        new_subs,
                        interest_at(j),
                    ),
                forall|j: int|
                    k <= j < 9 ==> #[trigger] self.interest_count@[j] == count_interested(
                        subs,
                        interest_at(j),
                    ),
                shrank == exists|j: int|
                    0 <= j < k && mask.has(interest_at(j)) && count_interested(
                        new_subs,
                        #[trigger] interest_at(j),
                    ) == 0,
            decreases 9 - k,
        {
            let m = InterestMask::at(k);
            proof {
                lemma_count_swap_removed(subs, pos as int, m);
            }
            if mask.contains(m) {
                let count = self.interest_count[k];
                let lowered = if count > 0 {
                    count - 1
                } else {
                    0
                };
                if lowered == 0 {
                    shrank = true;
                }
                self.interest_count.set(k, lowered);
            }
            k = k + 1;
        }
        proof {
            lemma_unregister_shrank(subs, pos as int, shrank);
            if ids_below(subs, old(self).next_id()) && ids_distinct(subs) {
                lemma_swap_removed_ids_below(subs, pos as int, old(self).next_id());
                lemma_unregister_removes_id(subs, id);
            }
        }
        shrank
    }

    /// The union of the interests of every registered subscription.
    pub fn current_mask(&self) -> (r: InterestMaskSet)
        requires
            self.wf(),
        ensures
            r == union_of(self.subscriptions()),
    {
        let mut b = crate::pulse::types::InterestMaskSetBuilder::new();
        let mut k: usize = 0;
        while k < 9
            invariant
                k <= 9,
                self.wf(),
                forall|m: InterestMask|
                    #[trigger] b.current().has(m) == (interest_index(m) < k && count_interested(
                        self.subscriptions(),
                        m,
                    ) > 0),
            decreases 9 - k,
        {
            let m = InterestMask::at(k);
            let ghost b0 = b;
            if self.interest_count[k] > 0 {
                b = b.set(m);
            }
            proof {
                assert forall|x: InterestMask|
                    #[trigger] b.current().has(x) == (interest_index(x) < k + 1 && count_interested(
                        self.subscriptions(),
                        x,
                    ) > 0) by {
                    b0.current().lemma_with_has(m, true, x);
                    lemma_interest_index(x);
                    if interest_index(x) == k {
                        assert(interest_at(k as int) == x);
                    }
                }
            }
            k = k + 1;
        }
        let r = b.build();
        proof {
            let u = union_of(self.subscriptions());
            assert forall|m: InterestMask| r.has(m) == u.has(m) by {
                lemma_interest_index(m);
                lemma_count_positive(self.subscriptions(), m);
            }
            r.lemma_ext_equal(u);
        }
        r
    }

    /// Offers `event` to every subscription interested in its facility (those that
    /// [`SubDispatcher::recipients`] names), in dispatch order.
    /// Each such subscription's record of offered events gains `event`; the others' records are
    /// unchanged. An event that a subscription's channel cannot take (full, or its receiver gone)
    /// is dropped for that subscription.
    pub fn dispatch(&mut self, event: SubscriptionEvent)
        requires
            old(self).wf(),
        ensures
            final(self).wf(),
            final(self).subscriptions() == old(self).subscriptions(),
            final(self).next_id() == old(self).next_id(),
            final(self).channels() == old(self).channels(),
            final(self).offered().len() == old(self).offered().len(),
            forall|i: int|
                0 <= i < old(self).offered().len() ==> #[trigger] final(self).offered()[i] == if old(
                    self,
                ).subscriptions()[i].1.has(facility_interest(event.facility)) {
                    old(self).offered()[i].push(event)
                } else {
                    old(self).offered()[i]
                },
    {
        let interest = event.facility.interest();
        let ghost subs = self.subscriptions();
        let ghost before = self.offered();
        let ghost channels = self.channels();
        let n = self.subscribers.len();
        let mut i: usize = 0;
        while i < n
            invariant
                i <= n == self.subscribers@.len() == before.len() == subs.len(),
                self.wf(),
                subs == old(self).subscriptions(),
                before == old(self).offered(),
                channels == old(self).channels(),
                self.channels() == channels,
                interest == facility_interest(event.facility),
                self.subscriptions() == subs,
                self.next_id == old(self).next_id(),
                self.offered().len() == before.len(),
                forall|k: int|
                    0 <= k < i ==> #[trigger] self.offered()[k] == if subs[k].1.has(interest) {
                        before[k].push(event)
                    } else {
                        before[k]
                    },
                forall|k: int| i <= k < n ==> #[trigger] self.offered()[k] == before[k],
            decreases n - i,
        {
            assert(subs[i as int] == (self.subscribers@[i as int].id, self.subscribers@[i as int].mask));
            if self.subscribers[i].mask.contains(interest) {
                let ghost s0 = self.subscribers@;
                offer(&mut self.subscribers[i], event);
                proof {
                    assert forall|k: int| 0 <= k < n && k != i implies self.subscribers@[k]
                        == s0[k] by {}
                    assert(self.subscriptions() =~= subs);
                    assert(self.channels() =~= channels);
                    assert forall|k: int| 0 <= k < n implies #[trigger] self.offered()[k] == if k
                        < i + 1 {
                        if subs[k].1.has(interest) {
                            before[k].push(event)
                        } else {
                            before[k]
                        }
                    } else {
                        before[k]
                    } by {
                        assert(self.offered()[k] == self.subscribers@[k].offered@);
                        assert(s0.map_values(|s: Subscriber| s.offered@)[k] == s0[k].offered@);
                    }
                }
            }
            i = i + 1;
        }
    }

    /// The ids of the subscriptions that an event of `facility` is offered to, in dispatch order:
    /// those interested in the facility.
    pub fn recipients(&self, facility: Facility) -> (r: Vec<SubscriptionId>)
        ensures
            r@ == interested_ids(self.subscriptions(), facility_interest(facility)),
    {
        let interest = facility.interest();
        let ghost subs = self.subscriptions();
        let n = self.subscribers.len();
        let mut out: Vec<SubscriptionId> = Vec::new();
        let mut i: usize = 0;
        while i < n
            invariant
                i <= n == self.subscribers@.len() == subs.len(),
                subs == self.subscriptions(),
                interest == facility_interest(facility),
                out@ == interested_ids(subs.take(i as int), interest),
            decreases n - i,
        {
            proof {
                assert(subs.take(i + 1).drop_last() == subs.take(i as int));
                assert(subs.take(i + 1).last() == subs[i as int]);
            }
            if self.subscribers[i].mask.contains(interest) {
                out.push(self.subscribers[i].id);
            }
            i = i + 1;
        }
        assert(subs.take(n as int) == subs);
        out
    }

    /// The number of registered subscriptions.
    pub fn subscription_count(&self) -> (r: usize)
        ensures
            r == self.subscriptions().len(),
    {
        self.subscribers.len()
    }

    /// Registers a subscription interested in `mask`, as [`SubDispatcher::register`] does, and
    /// tells what the sound server's subscription mask must become: the new union of all
    /// interests when it grew, `None` when the server's mask can stay as it is.
    pub fn register_with_update(&mut self, mask: InterestMaskSet) -> (r: (
        RegisterResult,
        Option<InterestMaskSet>,
    ))
        requires
            old(self).wf(),
            old(self).subscriptions().len() < usize::MAX,
        ensures
            final(self).wf(),
            r.0.id == old(self).next_id(),
            final(self).next_id() == next_after(old(self).next_id()),
            final(self).subscriptions() == old(self).subscriptions().push((r.0.id, mask)),
            final(self).offered() == old(self).offered().push(Seq::<SubscriptionEvent>::empty()),
            final(self).channels() == old(self).channels().push(receiver_channel(r.0.rx)),
            ids_below(old(self).subscriptions(), old(self).next_id()) && ids_distinct(
                old(self).subscriptions(),
            ) && old(self).next_id() < u64::MAX ==> {
                &&& index_of(old(self).subscriptions(), r.0.id) == -1
                &&& ids_below(final(self).subscriptions(), final(self).next_id())
                &&& ids_distinct(final(self).subscriptions())
            },
            r.0.grew == (union_of(final(self).subscriptions()) != union_of(old(self).subscriptions())),
            r.1 == if r.0.grew {
                Some(union_of(final(self).subscriptions()))
            } else {
                None::<InterestMaskSet>
            },
    {
        let result = self.register(mask);
        if result.grew {
            let mask = self.current_mask();
            (result, Some(mask))
        } else {
            (result, None)
        }
    }

    /// Unregisters `id`, as [`SubDispatcher::unregister`] does, and tells what the sound
    /// server's subscription mask must become: the new union of all interests when it shrank,
    /// `None` when the server's mask can stay as it is.
    pub fn unregister_with_update(&mut self, id: SubscriptionId) -> (r: Option<InterestMaskSet>)
        requires
            old(self).wf(),
        ensures
            final(self).wf(),
            final(self).next_id() == old(self).next_id(),
            index_of(old(self).subscriptions(), id) == -1 ==> r is None && final(self).subscriptions()
                == old(self).subscriptions(),
            index_of(old(self).subscriptions(), id) == -1 ==> final(self).offered() == old(
                self,
            ).offered() && final(self).channels() == old(self).channels(),
            index_of(old(self).subscriptions(), id) >= 0 ==> final(self).subscriptions()
                == swap_removed(old(self).subscriptions(), index_of(old(self).subscriptions(), id)),
            ids_below(old(self).subscriptions(), old(self).next_id()) && ids_distinct(
                old(self).subscriptions(),
            ) ==> ids_below(final(self).subscriptions(), final(self).next_id()) && ids_distinct(
                final(self).subscriptions(),
            ) && index_of(final(self).subscriptions(), id) == -1,
            index_of(old(self).subscriptions(), id) >= 0 ==> final(self).offered() == old(
                self,
            ).offered().update(index_of(old(self).subscriptions(), id), old(self).offered().last()).drop_last(),
            index_of(old(self).subscriptions(), id) >= 0 ==> final(self).channels() == old(
                self,
            ).channels().update(index_of(old(self).subscriptions(), id), old(self).channels().last()).drop_last(),
            r is Some == (union_of(final(self).subscriptions()) != union_of(old(self).subscriptions())),
            r is Some ==> r == Some(union_of(final(self).subscriptions())),
    {
        if self.unregister(id) {
            Some(self.current_mask())
        } else {
            None
        }
    }
}

/// Removing the subscription at `pos` shrinks the union exactly when one of its interests is
/// left with no subscription.
proof fn lemma_unregister_shrank(subs: Seq<(SubscriptionId, InterestMaskSet)>, pos: int, shrank: bool)
    requires
        0 <= pos < subs.len(),
        shrank == exists|j: int|
            0 <= j < 9 && subs[pos].1.has(interest_at(j)) && count_interested(
                swap_removed(subs, pos),
                #[trigger] interest_at(j),
            ) == 0,
    ensures
        shrank == (union_of(swap_removed(subs, pos)) != union_of(subs)),
{
    let rest = swap_removed(subs, pos);
    let before = union_of(subs);
    let after = union_of(rest);
    let mask = subs[pos].1;
    assert forall|m: InterestMask| after.has(m) == (count_interested(rest, m) > 0) && before.has(m)
        == (count_interested(subs, m) > 0) by {
        lemma_count_positive(rest, m);
        lemma_count_positive(subs, m);
    }
    if shrank {
        let j = choose|j: int|
            0 <= j < 9 && mask.has(interest_at(j)) && count_interested(
                rest,
                #[trigger] interest_at(j),
            ) == 0;
        lemma_count_swap_removed(subs, pos, interest_at(j));
        assert(after.has(interest_at(j)) != before.has(interest_at(j)));
    } else {
        assert forall|m: InterestMask| after.has(m) == before.has(m) by {
            lemma_interest_index(m);
            lemma_count_swap_removed(subs, pos, m);
            let j = interest_index(m) as int;
            assert(interest_at(j) == m);
        }
        after.lemma_ext_equal(before);
    }
}

/// Every id of `subs` is below `next`.
pub open spec fn ids_below(subs: Seq<(SubscriptionId, InterestMaskSet)>, next: SubscriptionId) -> bool {
    forall|i: int| 0 <= i < subs.len() ==> (#[trigger] subs[i]).0 < next
}

/// No two subscriptions of `subs` share an id.
pub open spec fn ids_distinct(subs: Seq<(SubscriptionId, InterestMaskSet)>) -> bool {
    forall|i: int, j: int| 0 <= i < j < subs.len() ==> (#[trigger] subs[i]).0 != (#[trigger] subs[j]).0
}

/// While ids have not wrapped around, a registration hands out an id that no subscription
/// has, and keeps every id distinct and below the next one.
pub proof fn lemma_register_fresh_id(
    subs: Seq<(SubscriptionId, InterestMaskSet)>,
    next: SubscriptionId,
    mask: InterestMaskSet,
)
    requires
        ids_below(subs, next),
        ids_distinct(subs),
        next < u64::MAX,
    ensures
        index_of(subs, next) == -1,
        ids_below(subs.push((next, mask)), next_after(next)),
        ids_distinct(subs.push((next, mask))),
{
    lemma_index_of(subs, next);
    let n = subs.push((next, mask));
    assert forall|i: int, j: int| 0 <= i < j < n.len() implies (#[trigger] n[i]).0 != (#[trigger] n[j]).0 by {
        if j == n.len() - 1 {
            assert(n[i] == subs[i]);
        } else {
            assert(n[i] == subs[i] && n[j] == subs[j]);
        }
    }
    assert forall|i: int| 0 <= i < n.len() implies (#[trigger] n[i]).0 < next_after(next) by {
        if i < subs.len() {
            assert(n[i] == subs[i]);
        }
    }
}

/// Unregistering the subscription a registration just added gives back the subscriptions,
/// and so the union of interests, from before that registration.
pub proof fn lemma_register_then_unregister(
    subs: Seq<(SubscriptionId, InterestMaskSet)>,
    id: SubscriptionId,
    mask: InterestMaskSet,
)
    requires
        index_of(subs, id) == -1,
    ensures
        index_of(subs.push((id, mask)), id) == subs.len(),
        swap_removed(subs.push((id, mask)), subs.len() as int) == subs,
        union_of(swap_removed(subs.push((id, mask)), subs.len() as int)) == union_of(subs),
{
    let n = subs.push((id, mask));
    assert(n.drop_last() == subs);
    assert(n.update(subs.len() as int, n.last()) == n);
}

/// With distinct ids, unregistering an id removes the only subscription that had it, so
/// unregistering it again finds nothing.
pub proof fn lemma_unregister_removes_id(subs: Seq<(SubscriptionId, InterestMaskSet)>, id: SubscriptionId)
    requires
        ids_distinct(subs),
        index_of(subs, id) >= 0,
    ensures
        index_of(swap_removed(subs, index_of(subs, id)), id) == -1,
        ids_distinct(swap_removed(subs, index_of(subs, id))),
{
    lemma_index_of(subs, id);
    let p = index_of(subs, id);
    let r = swap_removed(subs, p);
    assert forall|j: int| 0 <= j < r.len() implies (#[trigger] r[j]).0 != id by {
        if j == p {
            assert(r[j] == subs[subs.len() - 1]);
            assert(subs[p].0 != subs[subs.len() - 1].0);
        } else {
            assert(r[j] == subs[j]);
            if j < p {
            } else {
                assert(subs[p].0 != subs[j].0);
            }
        }
    }
    lemma_index_of(r, id);
    assert forall|i: int, j: int| 0 <= i < j < r.len() implies (#[trigger] r[i]).0 != (#[trigger] r[j]).0 by {
        let si = if i == p { subs.len() - 1 } else { i };
        let sj = if j == p { subs.len() - 1 } else { j };
        assert(r[i] == subs[si]);
        assert(r[j] == subs[sj]);
        if si < sj {
            assert(subs[si].0 != subs[sj].0);
        } else {
            assert(subs[sj].0 != subs[si].0);
        }
    }
}

/// Removing an entry keeps every remaining id below `next`.
proof fn lemma_swap_removed_ids_below(
    subs: Seq<(SubscriptionId, InterestMaskSet)>,
    pos: int,
    next: SubscriptionId,
)
    requires
        0 <= pos < subs.len(),
        ids_below(subs, next),
    ensures
        ids_below(swap_removed(subs, pos), next),
{
    let r = swap_removed(subs, pos);
    assert forall|j: int| 0 <= j < r.len() implies (#[trigger] r[j]).0 < next by {
        if j == pos {
            assert(r[j] == subs[subs.len() - 1]);
        } else {
            assert(r[j] == subs[j]);
        }
    }
}

/// The live subscriptions of `subs`, as a map from each id to the interests of the first
/// subscription with that id.
pub open spec fn live(subs: Seq<(SubscriptionId, InterestMaskSet)>) -> Map<SubscriptionId, InterestMaskSet> {
    Map::new(|id: SubscriptionId| index_of(subs, id) >= 0, |id: SubscriptionId| subs[index_of(subs, id)].1)
}

/// Registering a subscription under an id that no subscription has adds exactly that id, with
/// its interests, to the live subscriptions.
pub proof fn lemma_register_live(
    subs: Seq<(SubscriptionId, InterestMaskSet)>,
    id: SubscriptionId,
    mask: InterestMaskSet,
)
    requires
        index_of(subs, id) == -1,
    ensures
        live(subs.push((id, mask))) == live(subs).insert(id, mask),
{
    let n = subs.push((id, mask));
    assert(n.drop_last() == subs);
    assert forall|x: SubscriptionId| index_of(n, x) >= 0 implies #[trigger] n[index_of(n, x)] == if x
        == id {
        (id, mask)
    } else {
        subs[index_of(subs, x)]
    } by {
        lemma_index_of(subs, x);
    }
    assert(live(n) =~= live(subs).insert(id, mask));
}

/// With distinct ids, unregistering an id removes exactly that id from the live subscriptions
/// and leaves the others' interests as they were; an unknown id leaves them all unchanged.
pub proof fn lemma_unregister_live(subs: Seq<(SubscriptionId, InterestMaskSet)>, id: SubscriptionId)
    requires
        ids_distinct(subs),
    ensures
        index_of(subs, id) == -1 ==> live(subs) == live(subs).remove(id),
        index_of(subs, id) >= 0 ==> live(swap_removed(subs, index_of(subs, id))) == live(
            subs,
        ).remove(id),
{
    lemma_index_of(subs, id);
    if index_of(subs, id) == -1 {
        assert(live(subs) =~= live(subs).remove(id));
    } else {
        let p = index_of(subs, id);
        let r = swap_removed(subs, p);
        lemma_unregister_removes_id(subs, id);
        // every entry of `r` is an entry of `subs` other than the one at `p`
        assert forall|j: int| 0 <= j < r.len() implies #[trigger] r[j] == subs[if j == p {
            subs.len() - 1
        } else {
            j
        }] && (if j == p {
            subs.len() - 1
        } else {
            j
        }) != p by {}
        assert forall|x: SubscriptionId|
            #![trigger index_of(r, x)]
            x != id implies (index_of(r, x) >= 0 <==> index_of(subs, x) >= 0) && (index_of(r, x)
                >= 0 ==> r[index_of(r, x)].1 == subs[index_of(subs, x)].1) by {
            lemma_index_of(r, x);
            lemma_index_of(subs, x);
            if index_of(subs, x) >= 0 {
                let k = index_of(subs, x);
                assert(k != p);
                let j = if k == subs.len() - 1 {
                    p
                } else {
                    k
                };
                assert(r[j] == subs[k]);
            }
            if index_of(r, x) >= 0 {
                let j = index_of(r, x);
                let k = if j == p {
                    subs.len() - 1
                } else {
                    j
                };
                assert(r[j] == subs[k]);
                let k2 = index_of(subs, x);
                if k != k2 {
                    if k < k2 {
                        assert(subs[k].0 != subs[k2].0);
                    } else {
                        assert(subs[k2].0 != subs[k].0);
                    }
                }
            }
        }
        assert(live(r) =~= live(subs).remove(id));
    }
}

} // verus!
