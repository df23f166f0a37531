use otterhound::activation::{accept_fetch, activate, CheckoutRow, Store};
use otterhound::cursor::PollCursor;
use otterhound::event::{CheckoutSession, EventItem, ObjectWrapper, SubscriptionDetail};
use otterhound::router::{handle_event, EventPlan};
use otterhound::{tack_on, to_timestamp, ProcessError};

fn checkout_event(type_: &[u8], object: Option<CheckoutSession>) -> EventItem {
    EventItem {
        created: 1700000000,
        data: ObjectWrapper { object },
        type_: type_.to_vec(),
    }
}

fn session() -> CheckoutSession {
    CheckoutSession { id: b"cs_1".to_vec(), subscription: b"sub_1".to_vec() }
}

fn store_with_open_session() -> Store {
    Store {
        sessions: vec![CheckoutRow {
            external_id: b"cs_1".to_vec(),
            completed: false,
            user_id: 7,
            tier_id: 2,
        }],
        subscriptions: Vec::new(),
    }
}

#[test]
fn routes_checkout_completed_to_activation() {
    let plan = handle_event(checkout_event(b"checkout.session.completed", Some(session())));
    match plan {
        EventPlan::Fetch(cs) => {
            assert_eq!(cs.id, b"cs_1".to_vec());
            assert_eq!(cs.subscription, b"sub_1".to_vec());
        }
        _ => panic!("expected an activation plan"),
    }
}

#[test]
fn unrecognized_type_is_a_no_op() {
    let plan = handle_event(checkout_event(b"invoice.created", Some(session())));
    assert!(matches!(plan, EventPlan::Skip));
}

#[test]
fn malformed_payload_is_rejected() {
    let plan = handle_event(checkout_event(b"checkout.session.completed", None));
    assert!(matches!(plan, EventPlan::Reject));
}

#[test]
fn fetch_outcomes_classify() {
    let d = SubscriptionDetail { created: 1700000000, current_period_end: 1702600000 };
    assert_eq!(accept_fetch(true, Some(d)), Ok(d));
    assert_eq!(accept_fetch(true, None), Err(ProcessError::Parse));
    assert_eq!(accept_fetch(false, Some(d)), Err(ProcessError::Upstream));
    assert_eq!(accept_fetch(false, None), Err(ProcessError::Upstream));
}

#[test]
fn activation_completes_row_and_inserts_subscription() {
    let mut store = store_with_open_session();
    let d = SubscriptionDetail { created: 1700000000, current_period_end: 1702600000 };
    let r = activate(&mut store, b"cs_1", &d, b"sub_1");
    assert_eq!(r, Ok((7, 2)));
    assert!(store.sessions[0].completed);
    assert_eq!(store.subscriptions.len(), 1);
    let row = &store.subscriptions[0];
    assert_eq!(row.tier, 2);
    assert_eq!(row.user_id, 7);
    assert_eq!(row.start.secs, 1700000000);
    assert_eq!(row.period_end.secs, 1702600000);
    assert_eq!(row.external_subscription_id, b"sub_1".to_vec());
}

#[test]
fn duplicate_activation_misses_and_changes_nothing() {
    let mut store = store_with_open_session();
    let d = SubscriptionDetail { created: 1700000000, current_period_end: 1702600000 };
    assert_eq!(activate(&mut store, b"cs_1", &d, b"sub_1"), Ok((7, 2)));
    let second = activate(&mut store, b"cs_1", &d, b"sub_1");
    assert_eq!(second, Err(ProcessError::IdempotencyMiss));
    assert_eq!(store.subscriptions.len(), 1);
    assert!(store.sessions[0].completed);
}

#[test]
fn unknown_session_misses() {
    let mut store = store_with_open_session();
    let d = SubscriptionDetail { created: 1700000000, current_period_end: 1702600000 };
    let r = activate(&mut store, b"cs_2", &d, b"sub_2");
    assert_eq!(r, Err(ProcessError::IdempotencyMiss));
    assert_eq!(store.subscriptions.len(), 0);
    assert!(!store.sessions[0].completed);
}

#[test]
fn cold_start_batch_sets_cursor_without_dispatch() {
    let mut cursor = PollCursor::new();
    assert_eq!(cursor.query_after(), None);
    let batch = vec![
        checkout_event(b"invoice.created", None),
        checkout_event(b"checkout.session.completed", Some(session())),
    ];
    let dispatch = cursor.observe_batch(&batch);
    assert!(!dispatch);
    assert_eq!(cursor.query_after(), Some(1700000000));
}

#[test]
fn later_batch_advances_cursor_and_dispatches() {
    let mut cursor = PollCursor::new();
    cursor.observe_batch(&vec![checkout_event(b"invoice.created", None)]);
    let mut later = checkout_event(b"invoice.created", None);
    later.created = 1700000050;
    let dispatch = cursor.observe_batch(&vec![later]);
    assert!(dispatch);
    assert_eq!(cursor.query_after(), Some(1700000050));
}

#[test]
fn empty_batch_leaves_cursor_unchanged() {
    let mut cursor = PollCursor::new();
    assert!(!cursor.observe_batch(&Vec::new()));
    assert_eq!(cursor.query_after(), None);
    cursor.observe_batch(&vec![checkout_event(b"invoice.created", None)]);
    assert!(!cursor.observe_batch(&Vec::new()));
    assert_eq!(cursor.query_after(), Some(1700000000));
}

#[test]
fn failed_cycle_leaves_cursor_unchanged() {
    let mut cursor = PollCursor::new();
    cursor.observe_failure();
    assert_eq!(cursor.query_after(), None);
    cursor.observe_batch(&vec![checkout_event(b"invoice.created", None)]);
    cursor.observe_failure();
    assert_eq!(cursor.query_after(), Some(1700000000));
}

#[test]
fn cursor_never_decreases() {
    let mut cursor = PollCursor::new();
    cursor.observe_batch(&vec![checkout_event(b"invoice.created", None)]);
    let mut earlier = checkout_event(b"invoice.created", None);
    earlier.created = 1600000000;
    let dispatch = cursor.observe_batch(&vec![earlier]);
    assert!(dispatch);
    assert_eq!(cursor.query_after(), Some(1700000000));
}

#[test]
fn tack_on_carries_the_extra_value_on_both_paths() {
    assert_eq!(tack_on(Ok::<u32, u8>(1), "conn"), Ok((1, "conn")));
    assert_eq!(tack_on(Err::<u32, u8>(9), "conn"), Err((9, "conn")));
}

#[test]
fn to_timestamp_keeps_the_seconds() {
    assert_eq!(to_timestamp(1700000000).secs, 1700000000);
    assert_ne!(ProcessError::Storage, ProcessError::Upstream);
}
