use hmac::Mac;

use otterhound::activation::{accept_fetch, activate, CheckoutRow, Store};
use otterhound::event::{CheckoutSession, EventItem, ObjectWrapper, SubscriptionDetail};
use otterhound::router::{handle_event, EventPlan};
use otterhound::signature::verify_webhook;
use otterhound::ProcessError;

/// The hex signature the provider would supply for this timestamp and body.
fn sign(secret: &[u8], ts: &str, body: &[u8]) -> String {
    let mut mac = hmac::Hmac::<sha2::Sha256>::new_from_slice(secret).unwrap();
    mac.update(ts.as_bytes());
    mac.update(b".");
    mac.update(body);
    hex::encode(mac.finalize().into_bytes())
}

const SECRET: &[u8] = b"whsec_test";
const BODY: &[u8] = b"{\"created\":1700000000,\"type\":\"checkout.session.completed\",\"data\":{\"object\":{\"id\":\"cs_1\",\"subscription\":\"sub_1\"}}}";

#[test]
fn accepts_correctly_signed_delivery() {
    let header = format!("t=1700000000,v1={}", sign(SECRET, "1700000000", BODY));
    let r = verify_webhook(SECRET, Some(header.as_bytes()), BODY, 1700000000);
    assert_eq!(r, Ok(1700000000));
}

#[test]
fn rejects_missing_header() {
    let r = verify_webhook(SECRET, None, BODY, 1700000000);
    assert_eq!(r, Err(ProcessError::Auth));
}

#[test]
fn rejects_header_without_timestamp() {
    let header = format!("v1={}", sign(SECRET, "1700000000", BODY));
    let r = verify_webhook(SECRET, Some(header.as_bytes()), BODY, 1700000000);
    assert_eq!(r, Err(ProcessError::Auth));
}

#[test]
fn flipped_secret_byte_flips_acceptance() {
    let header = format!("t=1700000000,v1={}", sign(SECRET, "1700000000", BODY));
    let mut wrong = SECRET.to_vec();
    wrong[0] ^= 1;
    let r = verify_webhook(&wrong, Some(header.as_bytes()), BODY, 1700000000);
    assert_eq!(r, Err(ProcessError::Auth));
}

#[test]
fn flipped_body_byte_flips_acceptance() {
    let header = format!("t=1700000000,v1={}", sign(SECRET, "1700000000", BODY));
    let mut wrong = BODY.to_vec();
    wrong[3] ^= 1;
    let r = verify_webhook(SECRET, Some(header.as_bytes()), &wrong, 1700000000);
    assert_eq!(r, Err(ProcessError::Auth));
}

#[test]
fn any_matching_v1_suffices_for_rotation() {
    let good = sign(SECRET, "1700000000", BODY);
    let stale_secret = sign(b"whsec_old", "1700000000", BODY);
    let header = format!("t=1700000000,v1={},v1={}", stale_secret, good);
    let r = verify_webhook(SECRET, Some(header.as_bytes()), BODY, 1700000000);
    assert_eq!(r, Ok(1700000000));
}

#[test]
fn undecodable_v1_values_reject() {
    let header = "t=1700000000,v1=zz,v1=abc";
    let r = verify_webhook(SECRET, Some(header.as_bytes()), BODY, 1700000000);
    assert_eq!(r, Err(ProcessError::Auth));
}

#[test]
fn skew_inside_window_accepts() {
    let header = format!("t=1700000000,v1={}", sign(SECRET, "1700000000", BODY));
    assert_eq!(
        verify_webhook(SECRET, Some(header.as_bytes()), BODY, 1700000300),
        Ok(1700000000)
    );
    assert_eq!(
        verify_webhook(SECRET, Some(header.as_bytes()), BODY, 1699999700),
        Ok(1700000000)
    );
}

#[test]
fn skew_beyond_window_rejects_valid_signature() {
    let header = format!("t=1700000000,v1={}", sign(SECRET, "1700000000", BODY));
    assert_eq!(
        verify_webhook(SECRET, Some(header.as_bytes()), BODY, 1700000301),
        Err(ProcessError::Auth)
    );
    assert_eq!(
        verify_webhook(SECRET, Some(header.as_bytes()), BODY, 1699999699),
        Err(ProcessError::Auth)
    );
}

#[test]
fn unparsable_timestamp_is_malformed_after_signature_passes() {
    let header = format!("t=abc,v1={}", sign(SECRET, "abc", BODY));
    let r = verify_webhook(SECRET, Some(header.as_bytes()), BODY, 1700000000);
    assert_eq!(r, Err(ProcessError::Parse));
}

#[test]
fn signature_failure_masks_bad_timestamp() {
    let r = verify_webhook(SECRET, Some(b"t=abc,v1=00"), BODY, 1700000000);
    assert_eq!(r, Err(ProcessError::Auth));
}

#[test]
fn full_push_delivery_activates_subscription() {
    let header = format!("t=1700000000,v1={}", sign(SECRET, "1700000000", BODY));
    let verdict = verify_webhook(SECRET, Some(header.as_bytes()), BODY, 1700000000);
    assert_eq!(verdict, Ok(1700000000));

    // the values the delivery body carries, as the edge hands them over
    let evt = EventItem {
        created: 1700000000,
        data: ObjectWrapper {
            object: Some(CheckoutSession {
                id: b"cs_1".to_vec(),
                subscription: b"sub_1".to_vec(),
            }),
        },
        type_: b"checkout.session.completed".to_vec(),
    };
    let session = match handle_event(evt) {
        EventPlan::Fetch(session) => session,
        _ => panic!("expected an activation plan"),
    };
    let detail = accept_fetch(
        true,
        Some(SubscriptionDetail { created: 1700000000, current_period_end: 1702600000 }),
    )
    .unwrap();

    let mut store = Store {
        sessions: vec![CheckoutRow {
            external_id: b"cs_1".to_vec(),
            completed: false,
            user_id: 7,
            tier_id: 2,
        }],
        subscriptions: Vec::new(),
    };
    let r = activate(&mut store, &session.id, &detail, &session.subscription);
    assert_eq!(r, Ok((7, 2)));
    assert_eq!(store.subscriptions.len(), 1);
    assert_eq!(store.subscriptions[0].external_subscription_id, b"sub_1".to_vec());
}

#[test]
fn duplicate_delivery_is_accepted_again() {
    let header = format!("t=1700000000,v1={}", sign(SECRET, "1700000000", BODY));
    let first = verify_webhook(SECRET, Some(header.as_bytes()), BODY, 1700000000);
    let second = verify_webhook(SECRET, Some(header.as_bytes()), BODY, 1700000000);
    assert_eq!(first, Ok(1700000000));
    assert_eq!(second, Ok(1700000000));
}
