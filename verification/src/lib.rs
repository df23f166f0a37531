use vstd::prelude::*;

/// The activation transaction and its idempotency guard.
pub mod activation;
/// Byte-sequence searching, splitting, equality and decimal parsing.
pub mod bytestr;
/// The poll loop's monotonic watermark.
pub mod cursor;
/// The event and subscription data the channels carry.
pub mod event;
/// Hex numerals and their decoding.
pub mod hexcode;
/// The HMAC-SHA256 tag check.
pub mod mac;
/// Dispatch of a verified event by its type tag.
pub mod router;
/// Authentication and freshness of one push delivery.
pub mod signature;

verus! {

/// The error taxonomy of the service: authentication failures of a push
/// delivery, malformed data, a failed secondary fetch, a storage failure,
/// and the expected miss of the idempotency guard on a duplicate delivery.
#[derive(Clone, Copy, PartialEq, Eq, Structural, Debug)]
pub enum ProcessError {
    Auth,
    Parse,
    Upstream,
    Storage,
    IdempotencyMiss,
}

/// A point in time, in whole seconds since the Unix epoch.
#[derive(Clone, Copy, PartialEq, Eq, Structural, Debug)]
pub struct Timestamp {
    pub secs: u64,
}

/// Interprets a raw seconds count from the provider as a point in time.
pub fn to_timestamp(stamp: u64) -> (t: Timestamp)
    ensures
        t.secs == stamp,
{
    Timestamp { secs: stamp }
}

/// Pairs an extra value with either side of a result, so that a resource
/// travelling alongside an outcome is never lost on the error path.
pub fn tack_on<T, E, A>(src: Result<T, E>, add: A) -> (r: Result<(T, A), (E, A)>)
    ensures
        match src {
            Ok(value) => r == Ok::<(T, A), (E, A)>((value, add)),
            Err(err) => r == Err::<(T, A), (E, A)>((err, add)),
        },
{
    match src {
        Ok(value) => Ok((value, add)),
        Err(err) => Err((err, add)),
    }
}

} // verus!
