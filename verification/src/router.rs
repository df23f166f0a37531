use vstd::prelude::*;

use crate::bytestr::bytes_eq;
use crate::event::{CheckoutSession, EventItem};

verus! {

/// The type tag that the base system wires to a handler.
pub open spec fn spec_checkout_tag() -> Seq<u8> {
    seq![
        99u8, 104, 101, 99, 107, 111, 117, 116, 46, 115, 101, 115, 115, 105, 111, 110, 46, 99,
        111, 109, 112, 108, 101, 116, 101, 100,
    ]
}

/// Whether `t` is the checkout-session-completed type tag.
pub fn eq_checkout_tag(t: &[u8]) -> (r: bool)
    ensures
        r == (t@ == spec_checkout_tag()),
{
    let tag: [u8; 26] = [
        99u8, 104, 101, 99, 107, 111, 117, 116, 46, 115, 101, 115, 115, 105, 111, 110, 46, 99,
        111, 109, 112, 108, 101, 116, 101, 100,
    ];
    proof {
        assert(tag@ =~= spec_checkout_tag());
    }
    bytes_eq(t, tag.as_slice())
}

/// What the router decides for one verified event: ignore it, reject its
/// malformed payload, or go on to fetch the subscription and activate.
pub enum EventPlan {
    Skip,
    Reject,
    Fetch(CheckoutSession),
}

pub open spec fn spec_plan(evt: EventItem) -> EventPlan {
    if evt.type_@ == spec_checkout_tag() {
        match evt.data.object {
            Some(cs) => EventPlan::Fetch(cs),
            None => EventPlan::Reject,
        }
    } else {
        EventPlan::Skip
    }
}

/// Dispatches one event by its type tag. The only recognized tag is
/// checkout-session-completed; every other tag is a no-op success. For the
/// recognized tag, a payload without the checkout-session fields is rejected
/// as malformed; otherwise the plan carries the parsed session onward.
pub fn handle_event(evt: EventItem) -> (p: EventPlan)
    ensures
        p == spec_plan(evt),
{
    if eq_checkout_tag(evt.type_.as_slice()) {
        match evt.data.object {
            Some(cs) => EventPlan::Fetch(cs),
            None => EventPlan::Reject,
        }
    } else {
        EventPlan::Skip
    }
}

/// Law: an event of an unrecognized type is accepted and routed to a no-op,
/// so it reaches no storage mutation and raises no error.
pub proof fn lemma_unrecognized_type_ignored(evt: EventItem)
    requires
        evt.type_@ != spec_checkout_tag(),
    ensures
        spec_plan(evt) == EventPlan::Skip,
{
}

} // verus!
