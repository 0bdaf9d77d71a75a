use webhook_gateway::dispatch::{EntryOutcome, EventOutcome, HandlerKind};
use webhook_gateway::gateway::{Gateway, Method};
use webhook_gateway::registry::PageRegistry;
use webhook_gateway::signature::sign;

const ORIGINAL_BODY: &str = r#"{
                    "entry": [{
                        "id": "446574812442849",
                        "messaging": [{
                            "message": {
                                "mid": "J1mDvYbKMXep5gd33zTzsQ-qajMGJdQsNQ8WpXxuvnig0LlcPT9F3VX6HDICD5Cx-93JE8aBFjxWPJ-RjmJoRg",
                                "seq": 20230,
                                "text": "yo"
                            },
                            "recipient": {
                                "id": "446574812442849"
                            },
                            "sender": {
                                "id": "1614085592031831"
                            },
                            "timestamp": 1541364211913
                        }],
                        "time": 1541367254070
                    }],
                    "object": "page"
                }"#;

fn gateway_with(pages: &[(&str, &str, HandlerKind)]) -> Gateway {
    let mut registry = PageRegistry::new();
    for (id, token, handler) in pages {
        registry.register(id.as_bytes().to_vec(), token.as_bytes().to_vec(), handler.clone());
    }
    Gateway::new(b"app-secret".to_vec(), b"verify-token".to_vec(), registry)
}

#[test]
fn get_request() {
    // A realistic platform delivery, correctly signed end to end.
    let gw = gateway_with(&[("446574812442849", "page-token", HandlerKind::Echo)]);
    let body = ORIGINAL_BODY.as_bytes();
    let header = sign(body, b"app-secret");
    let (resp, outcomes) = gw.route(
        Method::Post,
        b"/webhook",
        b"",
        Some(header.as_slice()),
        body,
    );
    assert_eq!(resp.status, 200);
    assert_eq!(outcomes.len(), 1);
    match &outcomes[0] {
        EntryOutcome::Delivered { page_id, events } => {
            assert_eq!(page_id, &b"446574812442849".to_vec());
            assert_eq!(events.len(), 1);
            match &events[0] {
                EventOutcome::Replied { to, access_token, text } => {
                    assert_eq!(to, &b"1614085592031831".to_vec());
                    assert_eq!(access_token, &b"page-token".to_vec());
                    assert_eq!(text, &b"yo".to_vec());
                }
                _ => panic!("expected a reply"),
            }
        }
        _ => panic!("expected a delivered entry"),
    }
}

#[test]
fn signed_envelope_reaches_echo_handler() {
    // Register page "123" with the echo handler, post "yo", expect ("yo", token).
    let gw = gateway_with(&[("123", "tok-123", HandlerKind::Echo)]);
    let body = br#"{"object":"page","entry":[{"id":"123","time":1,"messaging":[{"sender":{"id":"77"},"recipient":{"id":"123"},"timestamp":1,"message":{"mid":"m1","text":"yo"}}]}]}"#;
    let header = sign(body, b"app-secret");
    let (resp, outcomes) = gw.route(Method::Post, b"/webhook", b"", Some(header.as_slice()), body);
    assert_eq!(resp.status, 200);
    assert!(resp.body.is_empty());
    assert_eq!(outcomes.len(), 1);
    match &outcomes[0] {
        EntryOutcome::Delivered { events, .. } => match &events[0] {
            EventOutcome::Replied { to, access_token, text } => {
                assert_eq!(to, &b"77".to_vec());
                assert_eq!(access_token, &b"tok-123".to_vec());
                assert_eq!(text, &b"yo".to_vec());
            }
            _ => panic!("expected a reply"),
        },
        _ => panic!("expected a delivered entry"),
    }
}

#[test]
fn wrong_signature_is_rejected_without_secrets() {
    let gw = gateway_with(&[("123", "tok-123", HandlerKind::Echo)]);
    let body = br#"{"object":"page","entry":[]}"#;
    let (resp, outcomes) = gw.route(
        Method::Post,
        b"/webhook",
        b"",
        Some(b"sha1=0000000000000000000000000000000000000000".as_slice()),
        body,
    );
    assert!(resp.status >= 400 && resp.status < 500);
    assert_eq!(resp.body, b"invalid signature".to_vec());
    let body_str = resp.body.clone();
    assert!(!body_str
        .windows(b"app-secret".len())
        .any(|w| w == b"app-secret"));
    assert!(outcomes.is_empty());
}

#[test]
fn missing_signature_is_rejected() {
    let gw = gateway_with(&[]);
    let (resp, _) = gw.route(Method::Post, b"/webhook", b"", None, b"{}");
    assert_eq!(resp.status, 401);
}

#[test]
fn handshake_round_trip() {
    let gw = gateway_with(&[]);
    let (resp, outcomes) = gw.route(
        Method::Get,
        b"/webhook",
        b"hub.mode=subscribe&hub.verify_token=verify-token&hub.challenge=abc123",
        None,
        b"",
    );
    assert_eq!(resp.status, 200);
    assert_eq!(resp.body, b"abc123".to_vec());
    assert!(outcomes.is_empty());
}

#[test]
fn handshake_wrong_token_fails_without_echoing_it() {
    let gw = gateway_with(&[]);
    let query: &[u8] = b"hub.mode=subscribe&hub.verify_token=wrong&hub.challenge=abc123";
    let (resp, _) = gw.route(Method::Get, b"/webhook", query, None, b"");
    assert_eq!(resp.status, 400);
    let expected: Vec<u8> = [
        b"Incorrect webhook_verify_token or No hub.challenge in ".as_slice(),
        query,
    ]
    .concat();
    assert_eq!(resp.body, expected);
    assert!(!resp
        .body
        .windows(b"verify-token".len())
        .any(|w| w == b"verify-token"));
}

#[test]
fn unknown_paths_and_verbs_are_not_found() {
    let gw = gateway_with(&[]);
    let (resp, _) = gw.route(Method::Get, b"/other", b"", None, b"");
    assert_eq!(resp.status, 404);
    let (resp2, _) = gw.route(Method::Other, b"/webhook", b"", None, b"");
    assert_eq!(resp2.status, 404);
}

#[test]
fn malformed_body_is_a_client_error() {
    let gw = gateway_with(&[]);
    let body = br#"{"entry": ["#;
    let header = sign(body, b"app-secret");
    let (resp, outcomes) = gw.route(Method::Post, b"/webhook", b"", Some(header.as_slice()), body);
    assert_eq!(resp.status, 400);
    assert_eq!(resp.body, b"malformed payload".to_vec());
    assert!(outcomes.is_empty());
}

#[test]
fn unregistered_entries_are_skipped_and_the_batch_still_succeeds() {
    // Three entries, two registered: exactly two are delivered.
    let gw = gateway_with(&[("a", "ta", HandlerKind::Echo), ("c", "tc", HandlerKind::Echo)]);
    let body = br#"{"object":"page","entry":[
        {"id":"a","messaging":[{"sender":{"id":"1"},"recipient":{"id":"a"},"timestamp":1,"message":{"mid":"m","text":"x"}}]},
        {"id":"b","messaging":[{"sender":{"id":"2"},"recipient":{"id":"b"},"timestamp":2,"message":{"mid":"n","text":"y"}}]},
        {"id":"c","messaging":[{"sender":{"id":"3"},"recipient":{"id":"c"},"timestamp":3,"message":{"mid":"o","text":"z"}}]}
    ]}"#;
    let header = sign(body, b"app-secret");
    let (resp, outcomes) = gw.route(Method::Post, b"/webhook", b"", Some(header.as_slice()), body);
    assert_eq!(resp.status, 200);
    assert_eq!(outcomes.len(), 3);
    assert!(matches!(outcomes[0], EntryOutcome::Delivered { .. }));
    assert!(matches!(outcomes[1], EntryOutcome::UnknownPage { .. }));
    assert!(matches!(outcomes[2], EntryOutcome::Delivered { .. }));
}

#[test]
fn one_failing_event_does_not_stop_its_siblings() {
    // The first event carries no message text, so the echo handler fails on
    // it; the second event is still delivered, as is the second entry.
    let gw = gateway_with(&[("a", "ta", HandlerKind::Echo), ("b", "tb", HandlerKind::Echo)]);
    let body = br#"{"object":"page","entry":[
        {"id":"a","messaging":[
            {"sender":{"id":"1"},"recipient":{"id":"a"},"timestamp":1,"postback":{"payload":"p"}},
            {"sender":{"id":"1"},"recipient":{"id":"a"},"timestamp":2,"message":{"mid":"m","text":"hi"}}
        ]},
        {"id":"b","messaging":[{"sender":{"id":"2"},"recipient":{"id":"b"},"timestamp":3,"message":{"mid":"n","text":"yo"}}]}
    ]}"#;
    let header = sign(body, b"app-secret");
    let (resp, outcomes) = gw.route(Method::Post, b"/webhook", b"", Some(header.as_slice()), body);
    assert_eq!(resp.status, 200);
    assert_eq!(outcomes.len(), 2);
    match &outcomes[0] {
        EntryOutcome::Delivered { events, .. } => {
            assert_eq!(events.len(), 2);
            assert!(matches!(events[0], EventOutcome::HandlerFailed));
            assert!(matches!(events[1], EventOutcome::Replied { .. }));
        }
        _ => panic!("expected a delivered entry"),
    }
    assert!(matches!(&outcomes[1], EntryOutcome::Delivered { events, .. } if events.len() == 1));
}

#[test]
fn prefix_echo_handler_prepends_its_prefix() {
    let gw = gateway_with(&[(
        "p",
        "tp",
        HandlerKind::PrefixEcho { prefix: b"you said: ".to_vec() },
    )]);
    let body = br#"{"object":"page","entry":[{"id":"p","messaging":[{"sender":{"id":"9"},"recipient":{"id":"p"},"timestamp":1,"message":{"mid":"m","text":"hey"}}]}]}"#;
    let header = sign(body, b"app-secret");
    let (_, outcomes) = gw.route(Method::Post, b"/webhook", b"", Some(header.as_slice()), body);
    match &outcomes[0] {
        EntryOutcome::Delivered { events, .. } => match &events[0] {
            EventOutcome::Replied { text, .. } => assert_eq!(text, &b"you said: hey".to_vec()),
            _ => panic!("expected a reply"),
        },
        _ => panic!("expected a delivered entry"),
    }
}

#[test]
fn registering_a_page_again_replaces_its_binding() {
    let mut registry = PageRegistry::new();
    registry.register(b"p".to_vec(), b"old".to_vec(), HandlerKind::Echo);
    registry.register(b"p".to_vec(), b"new".to_vec(), HandlerKind::Echo);
    let cfg = registry.lookup(b"p").expect("registered page");
    assert_eq!(cfg.access_token, b"new".to_vec());
    assert!(registry.lookup(b"q").is_none());
}
