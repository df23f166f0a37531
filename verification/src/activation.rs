use vstd::prelude::*;

use crate::{ProcessError, Timestamp, to_timestamp};
use crate::bytestr::bytes_eq;
use crate::event::SubscriptionDetail;
use vstd::slice::slice_to_vec;

verus! {

/// One persisted checkout session: activation flips `completed` at most once.
pub struct CheckoutRow {
    pub external_id: Vec<u8>,
    pub completed: bool,
    pub user_id: i32,
    pub tier_id: i32,
}

/// One persisted subscription, inserted exactly once per successful
/// activation, always paired with the completion of a checkout row.
pub struct SubscriptionRow {
    pub tier: i32,
    pub user_id: i32,
    pub start: Timestamp,
    pub period_end: Timestamp,
    pub external_subscription_id: Vec<u8>,
}

/// The two storage tables that an activation transaction mutates.
pub struct Store {
    pub sessions: Vec<CheckoutRow>,
    pub subscriptions: Vec<SubscriptionRow>,
}

/// Whether row `i` is the uncompleted checkout session `sid`.
pub open spec fn open_at(rows: Seq<CheckoutRow>, sid: Seq<u8>, i: int) -> bool {
    0 <= i < rows.len() && rows[i].external_id@ == sid && !rows[i].completed
}

/// Index of the first uncompleted checkout row for `sid`, or -1 when every
/// row for `sid` is already completed or absent. This is the row the
/// conditional update affects.
pub open spec fn find_open(rows: Seq<CheckoutRow>, sid: Seq<u8>) -> int
    decreases rows.len(),
{
    if rows.len() == 0 {
        -1
    } else if rows[0].external_id@ == sid && !rows[0].completed {
        0
    } else {
        let r = find_open(rows.subrange(1, rows.len() as int), sid);
        if r < 0 {
            -1
        } else {
            r + 1
        }
    }
}

pub proof fn lemma_find_open_found(rows: Seq<CheckoutRow>, sid: Seq<u8>, i: int)
    requires
        open_at(rows, sid, i),
        forall|k: int| 0 <= k < i ==> !open_at(rows, sid, k),
    ensures
        find_open(rows, sid) == i,
    decreases i,
{
    if i > 0 {
        let t = rows.subrange(1, rows.len() as int);
        assert(t[i - 1] == rows[i]);
        assert(!open_at(rows, sid, 0));
        assert(!(rows[0].external_id@ == sid && !rows[0].completed));
        assert(forall|k: int| 0 <= k < i - 1 ==> t[k] == rows[k + 1] && !open_at(rows, sid, k + 1));
        assert(forall|k: int| 0 <= k < i - 1 ==> !open_at(t, sid, k));
        assert(open_at(t, sid, i - 1));
        lemma_find_open_found(t, sid, i - 1);
    }
}

pub proof fn lemma_find_open_none(rows: Seq<CheckoutRow>, sid: Seq<u8>)
    requires
        forall|k: int| 0 <= k < rows.len() ==> !open_at(rows, sid, k),
    ensures
        find_open(rows, sid) == -1,
    decreases rows.len(),
{
    if rows.len() > 0 {
        let t = rows.subrange(1, rows.len() as int);
        assert(!open_at(rows, sid, 0));
        assert(!(rows[0].external_id@ == sid && !rows[0].completed));
        assert(forall|k: int|
            0 <= k < t.len() ==> t[k] == rows[k + 1] && !open_at(rows, sid, k + 1));
        assert(forall|k: int| 0 <= k < t.len() ==> !open_at(t, sid, k));
        lemma_find_open_none(t, sid);
    }
}

/// Law: find_open points at an open row for `sid` when there is one, and at
/// none exactly when every row for `sid` is completed or absent.
pub proof fn lemma_find_open_props(rows: Seq<CheckoutRow>, sid: Seq<u8>)
    ensures
        find_open(rows, sid) >= 0 ==> open_at(rows, sid, find_open(rows, sid)),
        find_open(rows, sid) < 0 ==> forall|k: int| !open_at(rows, sid, k),
    decreases rows.len(),
{
    if rows.len() > 0 {
        let t = rows.subrange(1, rows.len() as int);
        lemma_find_open_props(t, sid);
        if !(rows[0].external_id@ == sid && !rows[0].completed) && find_open(t, sid) < 0 {
            assert forall|k: int| !open_at(rows, sid, k) by {
                if 0 < k < rows.len() {
                    assert(t[k - 1] == rows[k]);
                    assert(!open_at(t, sid, k - 1));
                }
            }
        }
    }
}

/// Finds the first uncompleted checkout row for `sid`.
fn find_open_row(rows: &Vec<CheckoutRow>, sid: &[u8]) -> (r: Option<usize>)
    ensures
        match r {
            Some(f) => find_open(rows@, sid@) == f,
            None => find_open(rows@, sid@) == -1,
        },
{
    let mut i: usize = 0;
    while i < rows.len()
        invariant
            0 <= i <= rows@.len(),
            forall|k: int| 0 <= k < i ==> !open_at(rows@, sid@, k),
        decreases rows@.len() - i,
    {
        let row = &rows[i];
        if !row.completed && bytes_eq(row.external_id.as_slice(), sid) {
            proof {
                lemma_find_open_found(rows@, sid@, i as int);
            }
            return Some(i);
        }
        i = i + 1;
    }
    proof {
        lemma_find_open_none(rows@, sid@);
    }
    None
}

/// The row as the conditional update leaves it: completed, all else kept.
pub open spec fn completed_row(row: CheckoutRow) -> CheckoutRow {
    CheckoutRow {
        external_id: row.external_id,
        completed: true,
        user_id: row.user_id,
        tier_id: row.tier_id,
    }
}

/// No two checkout rows share an external id: the well-formedness the
/// storage schema keeps for the table.
pub open spec fn unique_ids(rows: Seq<CheckoutRow>) -> bool {
    forall|i: int, j: int|
        0 <= i < j < rows.len() ==> rows[i].external_id@ != rows[j].external_id@
}

/// The idempotent activation transaction against the store, as one atomic
/// step: complete the one uncompleted checkout row for `session_id` and
/// insert the paired subscription row, or report the idempotency miss — the
/// expected outcome of a duplicate delivery — and change nothing.
pub fn activate(
    store: &mut Store,
    session_id: &[u8],
    detail: &SubscriptionDetail,
    sub_ref: &[u8],
) -> (r: Result<(i32, i32), ProcessError>)
    ensures
        ({
            let fo = find_open(old(store).sessions@, session_id@);
            let pre = old(store).sessions@;
            let post = final(store).sessions@;
            if fo < 0 {
                &&& r == Err::<(i32, i32), ProcessError>(ProcessError::IdempotencyMiss)
                &&& post == pre
                &&& final(store).subscriptions@ == old(store).subscriptions@
            } else {
                &&& r == Ok::<(i32, i32), ProcessError>((pre[fo].user_id, pre[fo].tier_id))
                &&& post == pre.update(fo, completed_row(pre[fo]))
                &&& final(store).subscriptions@.len() == old(store).subscriptions@.len() + 1
                &&& forall|j: int|
                    0 <= j < old(store).subscriptions@.len() ==> final(store).subscriptions@[j]
                        == old(store).subscriptions@[j]
                &&& final(store).subscriptions@.last().tier == pre[fo].tier_id
                &&& final(store).subscriptions@.last().user_id == pre[fo].user_id
                &&& final(store).subscriptions@.last().start.secs == detail.created
                &&& final(store).subscriptions@.last().period_end.secs
                    == detail.current_period_end
                &&& final(store).subscriptions@.last().external_subscription_id@ == sub_ref@
            }
        }),
{
    match find_open_row(&store.sessions, session_id) {
        None => Err(ProcessError::IdempotencyMiss),
        Some(f) => {
            proof {
                lemma_find_open_props(store.sessions@, session_id@);
            }
            let user_id = store.sessions[f].user_id;
            let tier_id = store.sessions[f].tier_id;
            store.sessions[f].completed = true;
            proof {
                assert(store.sessions@ =~= old(store).sessions@.update(
                    f as int,
                    completed_row(old(store).sessions@[f as int]),
                ));
            }
            let row = SubscriptionRow {
                tier: tier_id,
                user_id: user_id,
                start: to_timestamp(detail.created),
                period_end: to_timestamp(detail.current_period_end),
                external_subscription_id: slice_to_vec(sub_ref),
            };
            store.subscriptions.push(row);
            Ok((user_id, tier_id))
        },
    }
}

/// Law (the at-most-once guarantee): once an activation for a session id has
/// completed its row, a second attempt for the same id finds no open row, so
/// it reports the idempotency miss and leaves storage unchanged. Holds of any
/// table without duplicate external ids, whichever of two concurrent
/// attempts the conditional update serializes first.
pub proof fn lemma_duplicate_activation_absorbed(
    pre: Seq<CheckoutRow>,
    post: Seq<CheckoutRow>,
    sid: Seq<u8>,
)
    requires
        unique_ids(pre),
        find_open(pre, sid) >= 0,
        post == pre.update(find_open(pre, sid), completed_row(pre[find_open(pre, sid)])),
    ensures
        find_open(post, sid) == -1,
{
    let fo = find_open(pre, sid);
    lemma_find_open_props(pre, sid);
    assert forall|k: int| !open_at(post, sid, k) by {
        if open_at(post, sid, k) {
            if k != fo {
                assert(post[k] == pre[k]);
                assert(open_at(pre, sid, k));
                assert(pre[k].external_id@ == sid && pre[fo].external_id@ == sid);
            }
        }
    }
    lemma_find_open_none(post, sid);
}

/// Law: completing one row never disturbs the uniqueness of external ids.
pub proof fn lemma_completion_keeps_unique(
    pre: Seq<CheckoutRow>,
    post: Seq<CheckoutRow>,
    fo: int,
)
    requires
        unique_ids(pre),
        0 <= fo < pre.len(),
        post == pre.update(fo, completed_row(pre[fo])),
    ensures
        unique_ids(post),
{
    assert forall|i: int, j: int|
        0 <= i < j < post.len() implies post[i].external_id@ != post[j].external_id@ by {
        assert(post[i].external_id@ == pre[i].external_id@);
        assert(post[j].external_id@ == pre[j].external_id@);
    }
}

/// Classifies the outcome of the secondary subscription fetch: a transport
/// error or non-success status abandons the event as an upstream failure; a
/// success status whose body lacks the subscription fields is malformed.
pub fn accept_fetch(status_ok: bool, detail: Option<SubscriptionDetail>) -> (r: Result<
    SubscriptionDetail,
    ProcessError,
>)
    ensures
        !status_ok ==> r == Err::<SubscriptionDetail, ProcessError>(ProcessError::Upstream),
        status_ok ==> r == (match detail {
            Some(d) => Ok::<SubscriptionDetail, ProcessError>(d),
            None => Err::<SubscriptionDetail, ProcessError>(ProcessError::Parse),
        }),
{
    if !status_ok {
        Err(ProcessError::Upstream)
    } else {
        match detail {
            Some(d) => Ok(d),
            None => Err(ProcessError::Parse),
        }
    }
}

} // verus!
