//! The bounded event channels that connect the dispatcher to its subscriptions.
use vstd::prelude::*;

use futures::channel::mpsc::{Receiver, Sender};

use crate::pulse::types::SubscriptionEvent;

verus! {

/// The sending half of a bounded channel of `futures`.
#[verifier::external_type_specification]
#[verifier::external_body]
#[verifier::reject_recursive_types(T)]
pub struct ExSender<T>(Sender<T>);

/// The receiving half of a bounded channel of `futures`.
#[verifier::external_type_specification]
#[verifier::external_body]
#[verifier::reject_recursive_types(T)]
pub struct ExReceiver<T>(Receiver<T>);

/// Identifies the channel that a sending half belongs to. It is only ever compared with
/// [`receiver_channel`]: equal values mean the two halves are ends of one channel.
pub uninterp spec fn sender_channel(tx: Sender<SubscriptionEvent>) -> int;

/// Identifies the channel that a receiving half belongs to. It is only ever compared with
/// [`sender_channel`]: equal values mean the two halves are ends of one channel.
pub uninterp spec fn receiver_channel(rx: Receiver<SubscriptionEvent>) -> int;

/// Creates a bounded event channel with `futures::channel::mpsc::channel`, which holds up to
/// `buffer` events plus one per sender, and returns its two ends. That function panics unless
/// `buffer` is below a quarter of `usize::MAX`. Claimed: the two halves are ends of one channel;
/// nothing is claimed about its capacity.
#[verifier::external_body]
pub(crate) fn bounded_channel(buffer: usize) -> (r: (Sender<SubscriptionEvent>, Receiver<SubscriptionEvent>))
    requires
        buffer < usize::MAX / 4,
    ensures
        sender_channel(r.0) == receiver_channel(r.1),
{
    futures::channel::mpsc::channel(buffer)
}

} // verus!
