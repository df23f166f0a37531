use vstd::prelude::*;

use hmac::Mac;

verus! {

/// What HMAC-SHA256 yields for the given key and message.
pub uninterp spec fn hmac_sha256_of(key: Seq<u8>, msg: Seq<u8>) -> Seq<u8>;

/// Relies on hmac's Hmac over sha2's Sha256: new_from_slice accepts a key of
/// any length, and verify_slice accepts exactly the full tag of the key and
/// message, compared in constant time.
#[verifier::external_body]
pub(crate) fn hmac_matches(key: &[u8], msg: &[u8], tag: &[u8]) -> (r: bool)
    ensures
        r == (tag@ == hmac_sha256_of(key@, msg@)),
{
    let mut mac = match <hmac::Hmac<sha2::Sha256> as Mac>::new_from_slice(key) {
        Ok(mac) => mac,
        Err(_) => return false,
    };
    mac.update(msg);
    mac.verify_slice(tag).is_ok()
}

} // verus!
