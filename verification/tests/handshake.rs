use webhook_gateway::handshake::{handle_verification, parse_params, pct_decode, verify_webhook_query};

#[test]
fn percent_and_plus_decoding() {
    assert_eq!(pct_decode(b"a%41b"), b"aAb".to_vec());
    assert_eq!(pct_decode(b"one+two"), b"one two".to_vec());
    assert_eq!(pct_decode(b"%2F%3d"), b"/=".to_vec());
    // An invalid escape passes through unchanged.
    assert_eq!(pct_decode(b"100%zz"), b"100%zz".to_vec());
    assert_eq!(pct_decode(b"%4"), b"%4".to_vec());
    assert_eq!(pct_decode(b""), b"".to_vec());
}

#[test]
fn query_strings_split_into_decoded_pairs() {
    let ps = parse_params(b"a=1&b=two+words&c&&d=%3D");
    let expected: Vec<(Vec<u8>, Vec<u8>)> = vec![
        (b"a".to_vec(), b"1".to_vec()),
        (b"b".to_vec(), b"two words".to_vec()),
        (b"c".to_vec(), b"".to_vec()),
        (b"d".to_vec(), b"=".to_vec()),
    ];
    assert_eq!(ps, expected);
}

#[test]
fn matching_token_yields_the_challenge() {
    let q = b"hub.mode=subscribe&hub.verify_token=tok&hub.challenge=abc123";
    assert_eq!(verify_webhook_query(q, b"tok"), Some(b"abc123".to_vec()));
    let resp = handle_verification(q, b"tok");
    assert_eq!(resp.status, 200);
    assert_eq!(resp.body, b"abc123".to_vec());
}

#[test]
fn wrong_or_missing_token_or_challenge_fails() {
    assert_eq!(
        verify_webhook_query(b"hub.verify_token=bad&hub.challenge=c", b"tok"),
        None
    );
    assert_eq!(verify_webhook_query(b"hub.challenge=c", b"tok"), None);
    assert_eq!(verify_webhook_query(b"hub.verify_token=tok", b"tok"), None);
    let q: &[u8] = b"hub.verify_token=bad";
    let resp = handle_verification(q, b"tok");
    assert_eq!(resp.status, 400);
    let expected: Vec<u8> = [
        b"Incorrect webhook_verify_token or No hub.challenge in ".as_slice(),
        q,
    ]
    .concat();
    assert_eq!(resp.body, expected);
}

#[test]
fn handshake_is_idempotent() {
    let q = b"hub.verify_token=tok&hub.challenge=xyz";
    let first = handle_verification(q, b"tok");
    let second = handle_verification(q, b"tok");
    assert_eq!(first.status, second.status);
    assert_eq!(first.body, second.body);
}

#[test]
fn encoded_token_parameters_are_decoded_before_comparison() {
    // "my token" arrives as my+token.
    let q = b"hub.verify_token=my+token&hub.challenge=ok";
    assert_eq!(verify_webhook_query(q, b"my token"), Some(b"ok".to_vec()));
}
