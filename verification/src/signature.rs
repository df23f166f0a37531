use vstd::prelude::*;

use crate::ProcessError;
use crate::bytestr::{find_byte, parse_u64, spec_parse_u64, split_bytes, split_on, first_index};
use crate::hexcode::{decode_hex, hex_bytes, hex_valid};
use crate::mac::{hmac_matches, hmac_sha256_of};
use vstd::slice::slice_to_vec;

verus! {

/// ASCII ','.
pub const COMMA: u8 = 44;

/// ASCII '='.
pub const EQUALS: u8 = 61;

/// ASCII '.'.
pub const PERIOD: u8 = 46;

/// ASCII 't'.
pub const LETTER_T: u8 = 116;

/// ASCII 'v'.
pub const LETTER_V: u8 = 118;

/// ASCII '1'.
pub const DIGIT_ONE: u8 = 49;

/// The freshness window for a delivery's timestamp, in seconds.
pub const MAX_SKEW_SECS: u64 = 300;

/// The key of one `key=value` pair of the signature header: everything up to
/// the first '=', or the whole pair when it has none.
pub open spec fn pair_key(p: Seq<u8>) -> Seq<u8> {
    let i = first_index(p, EQUALS);
    if i < 0 {
        p
    } else {
        p.subrange(0, i)
    }
}

/// The value of one `key=value` pair: the segment between the first '=' and
/// the next '=' or the end, or nothing when the pair has no '='.
pub open spec fn pair_value(p: Seq<u8>) -> Option<Seq<u8>> {
    let i = first_index(p, EQUALS);
    if i < 0 {
        None
    } else {
        let rest = p.subrange(i + 1, p.len() as int);
        let j = first_index(rest, EQUALS);
        if j < 0 {
            Some(rest)
        } else {
            Some(rest.subrange(0, j))
        }
    }
}

pub open spec fn t_key() -> Seq<u8> {
    seq![LETTER_T]
}

pub open spec fn v1_key() -> Seq<u8> {
    seq![LETTER_V, DIGIT_ONE]
}

/// Reading the header's pairs left to right: the last `t` pair's value (a `t`
/// pair without one unsets it), and every `v1` value in order.
pub open spec fn header_fold(ps: Seq<Seq<u8>>) -> (Option<Seq<u8>>, Seq<Seq<u8>>)
    decreases ps.len(),
{
    if ps.len() == 0 {
        (None::<Seq<u8>>, Seq::<Seq<u8>>::empty())
    } else {
        let prev = header_fold(ps.drop_last());
        let p = ps.last();
        if pair_key(p) == t_key() {
            (pair_value(p), prev.1)
        } else if pair_key(p) == v1_key() {
            match pair_value(p) {
                Some(v) => (prev.0, prev.1.push(v)),
                None => prev,
            }
        } else {
            prev
        }
    }
}

/// The timestamp field of the signature header, as raw bytes.
pub open spec fn header_timestamp(h: Seq<u8>) -> Option<Seq<u8>> {
    header_fold(split_on(h, COMMA)).0
}

/// The v1 signature fields of the signature header, in order. Several may be
/// present to let the provider rotate secrets.
pub open spec fn header_signatures(h: Seq<u8>) -> Seq<Seq<u8>> {
    header_fold(split_on(h, COMMA)).1
}

/// The bytes the provider signs: the timestamp field, a '.', and the body.
pub open spec fn signed_payload(ts: Seq<u8>, body: Seq<u8>) -> Seq<u8> {
    ts + seq![PERIOD] + body
}

/// Whether some supplied v1 signature hex-decodes to the HMAC-SHA256 tag of
/// the signed payload under the secret.
pub open spec fn sig_match_exists(secret: Seq<u8>, h: Seq<u8>, body: Seq<u8>) -> bool {
    match header_timestamp(h) {
        Some(ts) => exists|i: int|
            0 <= i < header_signatures(h).len() && hex_valid(header_signatures(h)[i])
                && hex_bytes(header_signatures(h)[i]) == hmac_sha256_of(
                secret,
                signed_payload(ts, body),
            ),
        None => false,
    }
}

pub open spec fn skew_within(now: u64, t: u64, window: u64) -> bool {
    (if now >= t {
        now - t
    } else {
        t - now
    }) <= window
}

pub open spec fn opt_view(o: Option<Vec<u8>>) -> Option<Seq<u8>> {
    match o {
        Some(v) => Some(v@),
        None => None,
    }
}

pub open spec fn opt_slice_view(o: Option<&[u8]>) -> Option<Seq<u8>> {
    match o {
        Some(s) => Some(s@),
        None => None,
    }
}

/// The verdict on one push delivery. Success carries the delivery's
/// timestamp. A missing header, a missing timestamp field, an unmatched
/// signature and a stale timestamp are authentication failures; a timestamp
/// field that is no numeral is malformed. The staleness check comes only
/// after the signature itself is confirmed valid.
pub open spec fn spec_verify_webhook(
    secret: Seq<u8>,
    header: Option<Seq<u8>>,
    body: Seq<u8>,
    now: u64,
) -> Result<u64, ProcessError> {
    match header {
        None => Err(ProcessError::Auth),
        Some(h) => match header_timestamp(h) {
            None => Err(ProcessError::Auth),
            Some(ts) => if !sig_match_exists(secret, h, body) {
                Err(ProcessError::Auth)
            } else {
                match spec_parse_u64(ts) {
                    None => Err(ProcessError::Parse),
                    Some(t) => if skew_within(now, t, MAX_SKEW_SECS) {
                        Ok(t)
                    } else {
                        Err(ProcessError::Auth)
                    },
                }
            },
        },
    }
}

/// The parsed fields of the signature header.
pub struct ParsedHeader {
    pub timestamp: Option<Vec<u8>>,
    pub signatures: Vec<Vec<u8>>,
}

/// Parses the signature header as comma-separated `key=value` pairs,
/// extracting the `t` field and every `v1` field.
pub fn parse_header(h: &[u8]) -> (r: ParsedHeader)
    ensures
        opt_view(r.timestamp) == header_timestamp(h@),
        r.signatures@.map_values(|v: Vec<u8>| v@) == header_signatures(h@),
{
    let toks = split_bytes(h, COMMA);
    let ghost tseq = toks@.map_values(|t: Vec<u8>| t@);
    let mut ts: Option<Vec<u8>> = None;
    let mut sigs: Vec<Vec<u8>> = Vec::new();
    let mut i: usize = 0;
    proof {
        assert(tseq.subrange(0, 0) =~= Seq::<Seq<u8>>::empty());
    }
    while i < toks.len()
        invariant
            0 <= i <= toks@.len(),
            tseq == toks@.map_values(|t: Vec<u8>| t@),
            (opt_view(ts), sigs@.map_values(|v: Vec<u8>| v@)) == header_fold(
                tseq.subrange(0, i as int),
            ),
        decreases toks@.len() - i,
    {
        let p: &Vec<u8> = &toks[i];
        let ghost pv = p@;
        let ghost pre = tseq.subrange(0, i as int);
        let ghost post = tseq.subrange(0, i as int + 1);
        let ghost old_state = (opt_view(ts), sigs@.map_values(|v: Vec<u8>| v@));
        proof {
            assert(post.drop_last() =~= pre);
            assert(post.last() == tseq[i as int]);
            assert(tseq[i as int] == pv);
        }
        match find_byte(p.as_slice(), 0, EQUALS) {
            None => {
                proof {
                    assert(pv.subrange(0, pv.len() as int) =~= pv);
                    assert(pair_key(pv) == pv);
                }
                // no '=' in the pair: a bare `t` key unsets the timestamp
                if p.len() == 1 && p[0] == LETTER_T {
                    proof {
                        assert(pv =~= t_key());
                    }
                    ts = None;
                } else {
                    proof {
                        if pair_key(pv) == t_key() {
                            assert(pv.len() == 1 && pv[0] == LETTER_T);
                        }
                        // a bare `v1` key carries no value, so the fold keeps
                        // the state; so does the executable code
                        assert(pair_value(pv) is None);
                    }
                }
            },
            Some(j) => {
                let ghost keyv = pv.subrange(0, j as int);
                proof {
                    assert(pv.subrange(0, pv.len() as int) =~= pv);
                    assert(first_index(pv, EQUALS) == j);
                    assert(pair_key(pv) == keyv);
                }
                let end = match find_byte(p.as_slice(), j + 1, EQUALS) {
                    Some(k) => k,
                    None => p.len(),
                };
                let val: Vec<u8> = slice_to_vec(&p.as_slice()[j + 1..end]);
                proof {
                    let rest = pv.subrange(j + 1, pv.len() as int);
                    assert(val@ =~= (if first_index(rest, EQUALS) < 0 {
                        rest
                    } else {
                        rest.subrange(0, first_index(rest, EQUALS))
                    }));
                    assert(pair_value(pv) == Some(val@));
                }
                if j == 1 && p[0] == LETTER_T {
                    proof {
                        assert(keyv =~= t_key());
                    }
                    ts = Some(val);
                } else if j == 2 && p[0] == LETTER_V && p[1] == DIGIT_ONE {
                    proof {
                        assert(keyv =~= v1_key());
                    }
                    let ghost old_sigs = sigs@.map_values(|v: Vec<u8>| v@);
                    sigs.push(val);
                    proof {
                        assert(sigs@.map_values(|v: Vec<u8>| v@) =~= old_sigs.push(val@));
                    }
                } else {
                    proof {
                        assert(keyv.len() == j);
                        if pair_key(pv) == t_key() {
                            assert(j == 1 && keyv[0] == LETTER_T);
                        }
                        if pair_key(pv) == v1_key() {
                            assert(j == 2 && keyv[0] == LETTER_V && keyv[1] == DIGIT_ONE);
                        }
                    }
                }
            },
        }
        proof {
            assert((opt_view(ts), sigs@.map_values(|v: Vec<u8>| v@)) == header_fold(post));
        }
        i = i + 1;
    }
    proof {
        assert(tseq.subrange(0, toks@.len() as int) =~= tseq);
    }
    ParsedHeader { timestamp: ts, signatures: sigs }
}

/// Appends `src` to `dst`.
pub fn append_bytes(dst: &mut Vec<u8>, src: &[u8])
    ensures
        final(dst)@ == old(dst)@ + src@,
{
    let mut i: usize = 0;
    proof {
        assert(dst@ =~= old(dst)@ + src@.subrange(0, 0));
    }
    while i < src.len()
        invariant
            0 <= i <= src@.len(),
            dst@ == old(dst)@ + src@.subrange(0, i as int),
        decreases src@.len() - i,
    {
        proof {
            assert(old(dst)@ + src@.subrange(0, i as int + 1) =~= (old(dst)@ + src@.subrange(
                0,
                i as int,
            )).push(src@[i as int]));
        }
        dst.push(src[i]);
        i = i + 1;
    }
    proof {
        assert(src@.subrange(0, src@.len() as int) =~= src@);
    }
}

/// Whether a signature at position `k` authenticates the payload.
pub open spec fn sig_ok_at(secret: Seq<u8>, sigs: Seq<Seq<u8>>, k: int, payload: Seq<u8>) -> bool {
    hex_valid(sigs[k]) && hex_bytes(sigs[k]) == hmac_sha256_of(secret, payload)
}

/// Authenticates one inbound push delivery. The header is parsed as
/// comma-separated `key=value` pairs; the delivery is accepted when any `v1`
/// field hex-decodes to the HMAC-SHA256 tag of "t.body" under the secret and
/// the `t` field is a numeral within the freshness window of `now`.
pub fn verify_webhook(secret: &[u8], header: Option<&[u8]>, body: &[u8], now: u64) -> (r: Result<
    u64,
    ProcessError,
>)
    ensures
        r == spec_verify_webhook(secret@, opt_slice_view(header), body@, now),
        r is Ok <==> {
            &&& header matches Some(h)
            &&& sig_match_exists(secret@, h@, body@)
            &&& header_timestamp(h@) matches Some(ts)
            &&& spec_parse_u64(ts) matches Some(t)
            &&& skew_within(now, t, MAX_SKEW_SECS)
        },
{
    let h = match header {
        Some(h) => h,
        None => {
            return Err(ProcessError::Auth);
        },
    };
    let parsed = parse_header(h);
    let ts = match parsed.timestamp {
        Some(ts) => ts,
        None => {
            return Err(ProcessError::Auth);
        },
    };
    let mut payload: Vec<u8> = Vec::new();
    append_bytes(&mut payload, ts.as_slice());
    payload.push(PERIOD);
    append_bytes(&mut payload, body);
    proof {
        assert(payload@ =~= signed_payload(ts@, body@));
    }
    let ghost sigsv = parsed.signatures@.map_values(|v: Vec<u8>| v@);
    let mut matched = false;
    let mut i: usize = 0;
    while i < parsed.signatures.len()
        invariant
            0 <= i <= parsed.signatures@.len(),
            sigsv == parsed.signatures@.map_values(|v: Vec<u8>| v@),
            payload@ == signed_payload(ts@, body@),
            matched == exists|k: int| 0 <= k < i && sig_ok_at(secret@, sigsv, k, payload@),
        decreases parsed.signatures@.len() - i,
    {
        match decode_hex(parsed.signatures[i].as_slice()) {
            Ok(decoded) => {
                if hmac_matches(secret, payload.as_slice(), decoded.as_slice()) {
                    proof {
                        assert(sig_ok_at(secret@, sigsv, i as int, payload@));
                    }
                    matched = true;
                } else {
                    proof {
                        assert(!sig_ok_at(secret@, sigsv, i as int, payload@));
                    }
                }
            },
            Err(_) => {
                proof {
                    assert(!sig_ok_at(secret@, sigsv, i as int, payload@));
                }
            },
        }
        i = i + 1;
    }
    proof {
        assert(Some(ts@) == header_timestamp(h@));
        if matched {
            let k = choose|k: int| 0 <= k < sigsv.len() && sig_ok_at(secret@, sigsv, k, payload@);
            assert(hex_valid(header_signatures(h@)[k]));
            assert(hex_bytes(header_signatures(h@)[k]) == hmac_sha256_of(
                secret@,
                signed_payload(ts@, body@),
            ));
            assert(sig_match_exists(secret@, h@, body@));
        } else {
            if sig_match_exists(secret@, h@, body@) {
                let k = choose|k: int|
                    0 <= k < header_signatures(h@).len() && hex_valid(header_signatures(h@)[k])
                        && hex_bytes(header_signatures(h@)[k]) == hmac_sha256_of(
                        secret@,
                        signed_payload(ts@, body@),
                    );
                assert(sig_ok_at(secret@, sigsv, k, payload@));
                assert(matched);
            }
        }
    }
    if !matched {
        return Err(ProcessError::Auth);
    }
    let t = match parse_u64(ts.as_slice()) {
        Some(t) => t,
        None => {
            return Err(ProcessError::Parse);
        },
    };
    let diff = if now >= t {
        now - t
    } else {
        t - now
    };
    if diff > MAX_SKEW_SECS {
        return Err(ProcessError::Auth);
    }
    Ok(t)
}

/// Law: a delivery with a header is accepted exactly when some supplied v1
/// field hex-decodes to the HMAC-SHA256 tag of the signed payload under the
/// secret, and the t field is a numeral within the freshness window.
pub proof fn lemma_accepts_iff_signature_matches(
    secret: Seq<u8>,
    h: Seq<u8>,
    body: Seq<u8>,
    now: u64,
)
    ensures
        spec_verify_webhook(secret, Some(h), body, now) is Ok <==> {
            &&& header_timestamp(h) matches Some(ts)
            &&& exists|i: int|
                0 <= i < header_signatures(h).len() && hex_valid(header_signatures(h)[i])
                    && hex_bytes(header_signatures(h)[i]) == hmac_sha256_of(
                    secret,
                    signed_payload(ts, body),
                )
            &&& spec_parse_u64(ts) matches Some(t)
            &&& skew_within(now, t, MAX_SKEW_SECS)
        },
{
}

/// Law: with a timestamp more than the freshness window away from the
/// current time, verification fails even against a signature correctly
/// computed for that timestamp.
pub proof fn lemma_stale_timestamp_rejected(
    secret: Seq<u8>,
    h: Seq<u8>,
    body: Seq<u8>,
    now: u64,
    t: u64,
)
    requires
        header_timestamp(h) matches Some(ts) && spec_parse_u64(ts) == Some(t),
        !skew_within(now, t, MAX_SKEW_SECS),
    ensures
        spec_verify_webhook(secret, Some(h), body, now) != Ok::<u64, ProcessError>(t),
        spec_verify_webhook(secret, Some(h), body, now) is Err,
{
}

} // verus!
