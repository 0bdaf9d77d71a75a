use webhook_gateway::signature::{ct_eq, hex_decode, hex_encode, sign, validate};

#[test]
fn signing_then_validating_succeeds() {
    let body = b"hello webhook";
    let secret = b"s3cr3t";
    let header = sign(body, secret);
    assert!(header.starts_with(b"sha1="));
    assert_eq!(header.len(), 45);
    assert!(validate(body, Some(header.as_slice()), secret).is_ok());
}

#[test]
fn flipping_a_body_byte_fails() {
    let body = b"hello webhook".to_vec();
    let secret = b"s3cr3t";
    let header = sign(body.as_slice(), secret);
    for i in 0..body.len() {
        let mut flipped = body.clone();
        flipped[i] ^= 1;
        assert!(validate(flipped.as_slice(), Some(header.as_slice()), secret).is_err());
    }
}

#[test]
fn changing_a_digest_digit_fails() {
    let body = b"hello webhook";
    let secret = b"s3cr3t";
    let header = sign(body, secret);
    for i in 5..header.len() {
        let mut changed = header.clone();
        changed[i] = if changed[i] == b'0' { b'1' } else { b'0' };
        assert!(validate(body, Some(changed.as_slice()), secret).is_err());
    }
}

#[test]
fn upper_case_digest_hex_is_accepted() {
    let body = b"hello";
    let secret = b"k";
    let mut header = sign(body, secret);
    for c in header.iter_mut().skip(5) {
        *c = c.to_ascii_uppercase();
    }
    assert!(validate(body, Some(header.as_slice()), secret).is_ok());
}

#[test]
fn malformed_headers_all_fail_the_same_way() {
    let body = b"payload";
    let secret = b"k";
    let good = sign(body, secret);
    assert!(validate(body, None, secret).is_err());
    assert!(validate(body, Some(b"".as_slice()), secret).is_err());
    assert!(validate(body, Some(b"sha1".as_slice()), secret).is_err());
    assert!(validate(body, Some(b"sha2=00".as_slice()), secret).is_err());
    assert!(validate(body, Some(&good[..good.len() - 1]), secret).is_err());
    assert!(validate(body, Some(b"sha1=zz".as_slice()), secret).is_err());
    assert!(validate(body, Some(b"sha1=0".as_slice()), secret).is_err());
}

#[test]
fn empty_secret_still_computes_and_fails_closed() {
    // An unconfigured deployment does not fall into an "always accept" path:
    // the digest is still computed, so a wrong digest is still rejected,
    // and only the matching digest for the empty key passes.
    let body = b"payload";
    assert!(validate(
        body,
        Some(b"sha1=0000000000000000000000000000000000000000".as_slice()),
        b"",
    )
    .is_err());
    let header = sign(body, b"");
    assert!(validate(body, Some(header.as_slice()), b"").is_ok());
}

#[test]
fn known_hmac_sha1_vector() {
    // RFC 2202 test case 2: key "Jefe", data "what do ya want for nothing?".
    let header = sign(b"what do ya want for nothing?", b"Jefe");
    assert_eq!(
        header,
        b"sha1=effcdf6ae5eb2fa2d27416d5f184df9c259a7c79".to_vec()
    );
}

#[test]
fn hex_round_trip_and_decode_errors() {
    let bytes = vec![0u8, 15, 16, 255, 171];
    let hex = hex_encode(bytes.as_slice());
    assert_eq!(hex, b"000f10ffab".to_vec());
    assert_eq!(hex_decode(hex.as_slice()), Some(bytes));
    assert_eq!(hex_decode(b"ABCDEF"), Some(vec![0xABu8, 0xCD, 0xEF]));
    assert_eq!(hex_decode(b"0"), None);
    assert_eq!(hex_decode(b"0g"), None);
    assert_eq!(hex_decode(b""), Some(vec![]));
}

#[test]
fn constant_time_comparison_agrees_with_equality() {
    assert!(ct_eq(b"", b""));
    assert!(ct_eq(b"abc", b"abc"));
    assert!(!ct_eq(b"abc", b"abd"));
    assert!(!ct_eq(b"abc", b"ab"));
    assert!(!ct_eq(b"\x00", b"\x01"));
}
