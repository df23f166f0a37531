use otterhound::bytestr::{bytes_eq, find_byte, parse_u64, split_bytes};
use otterhound::signature::parse_header;

#[test]
fn header_with_timestamp_and_signatures() {
    let p = parse_header(b"t=1700000000,v1=aa,v1=bb");
    assert_eq!(p.timestamp, Some(b"1700000000".to_vec()));
    assert_eq!(p.signatures, vec![b"aa".to_vec(), b"bb".to_vec()]);
}

#[test]
fn later_timestamp_pair_wins() {
    let p = parse_header(b"t=1,t=2");
    assert_eq!(p.timestamp, Some(b"2".to_vec()));
}

#[test]
fn bare_timestamp_key_unsets_the_field() {
    let p = parse_header(b"t=5,t");
    assert_eq!(p.timestamp, None);
}

#[test]
fn signature_value_stops_at_second_equals() {
    let p = parse_header(b"t=9,v1=aa=bb");
    assert_eq!(p.signatures, vec![b"aa".to_vec()]);
}

#[test]
fn unknown_keys_and_empty_pairs_are_ignored() {
    let p = parse_header(b"a=1,,v2=cc,t=3");
    assert_eq!(p.timestamp, Some(b"3".to_vec()));
    assert_eq!(p.signatures, Vec::<Vec<u8>>::new());
}

#[test]
fn split_keeps_empty_segments() {
    let toks = split_bytes(b"a,,b", 44);
    assert_eq!(toks, vec![b"a".to_vec(), b"".to_vec(), b"b".to_vec()]);
    assert_eq!(split_bytes(b"", 44), vec![b"".to_vec()]);
}

#[test]
fn find_byte_reports_first_occurrence() {
    assert_eq!(find_byte(b"a=b=c", 0, 61), Some(1));
    assert_eq!(find_byte(b"a=b=c", 2, 61), Some(3));
    assert_eq!(find_byte(b"abc", 0, 61), None);
}

#[test]
fn bytes_eq_compares_contents() {
    assert!(bytes_eq(b"abc", b"abc"));
    assert!(!bytes_eq(b"abc", b"abd"));
    assert!(!bytes_eq(b"abc", b"ab"));
}

#[test]
fn parses_decimal_numerals() {
    assert_eq!(parse_u64(b"1700000000"), Some(1700000000));
    assert_eq!(parse_u64(b"+7"), Some(7));
    assert_eq!(parse_u64(b"007"), Some(7));
    assert_eq!(parse_u64(b"18446744073709551615"), Some(u64::MAX));
}

#[test]
fn rejects_non_numerals_and_overflow() {
    assert_eq!(parse_u64(b""), None);
    assert_eq!(parse_u64(b"+"), None);
    assert_eq!(parse_u64(b"12a"), None);
    assert_eq!(parse_u64(b"-1"), None);
    assert_eq!(parse_u64(b"18446744073709551616"), None);
}
