use vstd::prelude::*;

verus! {

/// The two payload fields of a completed checkout that activation reads: the
/// provider-side session id and the linked subscription reference.
pub struct CheckoutSession {
    pub id: Vec<u8>,
    pub subscription: Vec<u8>,
}

/// The `object` member of an event's `data` payload, held as the
/// checkout-session fields the downstream logic reads, where the payload has
/// that shape.
pub struct ObjectWrapper {
    pub object: Option<CheckoutSession>,
}

/// One provider event: creation time in epoch seconds, payload, and type tag.
pub struct EventItem {
    pub created: u64,
    pub data: ObjectWrapper,
    pub type_: Vec<u8>,
}

/// The secondary resource fetched per activation: the subscription's own
/// creation time and the end of its current period, in epoch seconds.
#[derive(Clone, Copy, PartialEq, Eq, Structural, Debug)]
pub struct SubscriptionDetail {
    pub created: u64,
    pub current_period_end: u64,
}

} // verus!
