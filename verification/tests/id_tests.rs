use std::str::FromStr;

use seedvault::Uid;

#[test]
fn test_deserialize_from_php() {
    assert_eq!(6717713287347927653, Uid::from_str("XTocpJNLemU=").unwrap().0);
    assert_eq!(1364355021410530935, Uid::from_str("Eu8pqc6x9nc=").unwrap().0);
    assert_eq!(6194032148428143539, Uid::from_str("VfWfa-5ou7M=").unwrap().0);
}

#[test]
fn test_empty() {
    assert_eq!(Uid::from_bytes(b"").0, 16406829232824261652);
}

#[test]
fn test_non_zero_output_for_zeroes() {
    // any extra zero bit should lead to a different result
    assert_eq!(Uid::from_bytes(&[0u8]).0, 7940984811893783192);
    assert_eq!(Uid::from_bytes(&[0u8, 0]).0, 10854403881223488966);
    assert_eq!(Uid::from_bytes(&[0u8, 0, 0]).0, 8115065177273508417);
}

#[test]
fn test_arbitrary() {
    assert_eq!(9572568648884945950, Uid::from_bytes(b"0123456789").0);
}

#[test]
fn test_base64_round_trip() {
    for v in [0u64, 1, 42, u64::MAX, 6717713287347927653] {
        let uid = Uid::new(v);
        let text = uid.to_base64();
        assert_eq!(Uid::from_str(&text).unwrap(), uid);
    }
}

#[test]
fn test_parse_rejects_wrong_length() {
    // decodes to 9 bytes, not 8
    assert!(Uid::parse_base64("AAAAAAAAAAAA").is_none());
    // not base64 at all
    assert!(Uid::parse_base64("!!!").is_none());
}

#[test]
fn test_as_bytes_big_endian() {
    let uid = Uid::new(0x0102030405060708);
    assert_eq!(uid.as_bytes(), [1, 2, 3, 4, 5, 6, 7, 8]);
}
