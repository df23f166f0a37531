use vstd::prelude::*;

use crate::event::EventItem;

verus! {

/// The largest `created` value in the batch, or 0 for an empty batch.
pub open spec fn batch_max(b: Seq<EventItem>) -> u64
    decreases b.len(),
{
    if b.len() == 0 {
        0
    } else {
        let m = batch_max(b.drop_last());
        if b.last().created > m {
            b.last().created
        } else {
            m
        }
    }
}

/// The cursor after digesting one successful poll batch: unchanged for an
/// empty batch, otherwise the maximum `created` value observed so far.
pub open spec fn spec_cursor_after(cur: Option<u64>, batch: Seq<EventItem>) -> Option<u64> {
    if batch.len() == 0 {
        cur
    } else {
        match cur {
            None => Some(batch_max(batch)),
            Some(c) => Some(if batch_max(batch) > c {
                batch_max(batch)
            } else {
                c
            }),
        }
    }
}

/// Whether the batch is handed on to the router: only a non-empty batch, and
/// never on a cold start, where the first batch only establishes the cursor.
pub open spec fn spec_dispatch(cur: Option<u64>, batch: Seq<EventItem>) -> bool {
    batch.len() > 0 && cur is Some
}

/// The poll loop's watermark: unset until the first successful poll,
/// thereafter the maximum `created` value observed so far.
pub struct PollCursor {
    pub last: Option<u64>,
}

impl PollCursor {
    pub fn new() -> (c: PollCursor)
        ensures
            c.last is None,
    {
        PollCursor { last: None }
    }

    /// The lower bound for the next poll query: list only events created
    /// strictly later, or everything while the cursor is unset.
    pub fn query_after(&self) -> (r: Option<u64>)
        ensures
            r == self.last,
    {
        self.last
    }

    /// A failed poll cycle — a transport or decode error — is recorded by the
    /// caller and otherwise ignored: it neither advances nor resets the
    /// cursor, and the loop goes on at the next interval.
    pub fn observe_failure(&mut self)
        ensures
            final(self).last == old(self).last,
    {
    }

    /// Digests one successful poll batch and says whether its items are to be
    /// dispatched. The cursor never decreases; a batch that arrives while the
    /// cursor is unset is absorbed without dispatch.
    pub fn observe_batch(&mut self, batch: &Vec<EventItem>) -> (dispatch: bool)
        ensures
            final(self).last == spec_cursor_after(old(self).last, batch@),
            dispatch == spec_dispatch(old(self).last, batch@),
            old(self).last matches Some(c) ==> (final(self).last matches Some(d) && d >= c),
    {
        if batch.len() == 0 {
            return false;
        }
        let mut m: u64 = 0;
        let mut i: usize = 0;
        proof {
            assert(batch@.subrange(0, 0) =~= Seq::<EventItem>::empty());
        }
        while i < batch.len()
            invariant
                0 <= i <= batch@.len(),
                m == batch_max(batch@.subrange(0, i as int)),
            decreases batch@.len() - i,
        {
            proof {
                assert(batch@.subrange(0, i as int + 1).drop_last() =~= batch@.subrange(
                    0,
                    i as int,
                ));
                assert(batch@.subrange(0, i as int + 1).last() == batch@[i as int]);
            }
            let c = batch[i].created;
            if c > m {
                m = c;
            }
            i = i + 1;
        }
        proof {
            assert(batch@.subrange(0, batch@.len() as int) =~= batch@);
        }
        let was_set = self.last.is_some();
        self.last = match self.last {
            None => Some(m),
            Some(c) => Some(
                if m > c {
                    m
                } else {
                    c
                },
            ),
        };
        was_set
    }
}

} // verus!
