use licenseptium::request::Request;
use licenseptium::error::ValidationError;
use licenseptium::request::{
    caller_address, decode_checksum, key_from_parsed, parse_key, same_bytes, PeerAddress,
};

#[test]
fn key_is_read_in_every_format_of_the_parser() {
    let value = 0xa1a2a3a4_b1b2_c1c2_d1d2_d3d4d5d6d7d8u128;
    assert_eq!(parse_key("a1a2a3a4-b1b2-c1c2-d1d2-d3d4d5d6d7d8"), Ok(value));
    assert_eq!(parse_key("A1A2A3A4-B1B2-C1C2-D1D2-D3D4D5D6D7D8"), Ok(value));
    assert_eq!(parse_key("a1a2a3a4b1b2c1c2d1d2d3d4d5d6d7d8"), Ok(value));
    assert_eq!(parse_key("{a1a2a3a4-b1b2-c1c2-d1d2-d3d4d5d6d7d8}"), Ok(value));
    assert_eq!(
        parse_key("urn:uuid:a1a2a3a4-b1b2-c1c2-d1d2-d3d4d5d6d7d8"),
        Ok(value)
    );
    assert_eq!(parse_key("00000000-0000-0000-0000-000000000000"), Ok(0));
    assert_eq!(
        parse_key("ffffffff-ffff-ffff-ffff-ffffffffffff"),
        Ok(u128::MAX)
    );
}

#[test]
fn key_in_no_format_is_malformed() {
    for text in [
        "",
        "key",
        "a1a2a3a4-b1b2-c1c2-d1d2-d3d4d5d6d7d",
        "a1a2a3a4-b1b2-c1c2-d1d2-d3d4d5d6d7d8 ",
        "g1a2a3a4-b1b2-c1c2-d1d2-d3d4d5d6d7d8",
        "a1a2a3a4b1b2-c1c2-d1d2-d3d4d5d6d7d8-",
        "a1a2a3a4-b1b2-c1c2-d1d2-d3d4d5d6d7d8\n",
    ] {
        assert_eq!(parse_key(text), Err(ValidationError::MalformedKey), "{:?}", text);
    }
}

#[test]
fn key_from_parsed_keeps_the_key() {
    assert_eq!(key_from_parsed(Some(5)), Ok(5));
    assert_eq!(key_from_parsed(None), Err(ValidationError::MalformedKey));
}

#[test]
fn checksum_is_decoded_two_digits_to_the_byte() {
    assert_eq!(decode_checksum(""), Ok(vec![]));
    assert_eq!(decode_checksum("00"), Ok(vec![0]));
    assert_eq!(decode_checksum("0a"), Ok(vec![10]));
    assert_eq!(decode_checksum("a0"), Ok(vec![160]));
    assert_eq!(decode_checksum("fF"), Ok(vec![255]));
    assert_eq!(
        decode_checksum("48656c6c6f20776f726c6421"),
        Ok(b"Hello world!".to_vec())
    );
    assert_eq!(
        decode_checksum("0123456789abcdefABCDEF"),
        Ok(vec![0x01, 0x23, 0x45, 0x67, 0x89, 0xab, 0xcd, 0xef, 0xab, 0xcd, 0xef])
    );
}

#[test]
fn checksum_that_is_no_hex_encoding_is_malformed() {
    for text in ["1", "123", "0g", "g0", " 00", "00 ", "0x", "é", "éé", "0é0", "-1"] {
        assert_eq!(
            decode_checksum(text),
            Err(ValidationError::MalformedChecksum),
            "{:?}",
            text
        );
    }
}

#[test]
fn caller_must_have_an_ipv4_address() {
    assert_eq!(caller_address(None), Err(ValidationError::IPAddressNotFound));
    assert_eq!(
        caller_address(Some(PeerAddress::V6(0xffff_7f00_0001))),
        Err(ValidationError::BadIPVersion)
    );
    assert_eq!(
        caller_address(Some(PeerAddress::V4(0x7f00_0001))),
        Ok(0x7f00_0001)
    );
    assert_eq!(caller_address(Some(PeerAddress::V4(0))), Ok(0));
}

#[test]
fn bytes_are_held_against_each_other_one_by_one() {
    assert!(same_bytes(&[], &[]));
    assert!(same_bytes(&[1, 2, 3], &[1, 2, 3]));
    assert!(!same_bytes(&[1, 2, 3], &[1, 2]));
    assert!(!same_bytes(&[1, 2], &[1, 2, 3]));
    assert!(!same_bytes(&[1, 2, 3], &[1, 2, 4]));
    assert!(!same_bytes(&[0, 2, 3], &[1, 2, 3]));
}

#[test]
fn request_looks_at_the_address_then_at_the_key() {
    let v4 = Some(PeerAddress::V4(9));
    let key = "00000000-0000-0000-0000-00000000002a";
    assert_eq!(
        Request::parse("bad", Some("zz"), None),
        Err(ValidationError::IPAddressNotFound)
    );
    assert_eq!(
        Request::parse("bad", Some("zz"), Some(PeerAddress::V6(9))),
        Err(ValidationError::BadIPVersion)
    );
    assert_eq!(
        Request::parse(key, Some("zz"), Some(PeerAddress::V6(9))),
        Err(ValidationError::BadIPVersion)
    );
    assert_eq!(
        Request::parse("bad", Some("zz"), v4),
        Err(ValidationError::MalformedKey)
    );
    assert_eq!(
        Request::parse(key, Some("zz"), v4),
        Ok(Request { key: 42, address: 9, checksum: Some("zz".to_owned()) })
    );
    assert_eq!(
        Request::parse(key, None, v4),
        Ok(Request { key: 42, address: 9, checksum: None })
    );
}
