use webhook_gateway::payload::{parse_envelope, EventPayload};

#[test]
fn parses_a_full_delivery_payload() {
    let body = br#"{
        "object": "page",
        "entry": [{
            "id": "446574812442849",
            "time": 1541367254070,
            "messaging": [{
                "sender": {"id": "1614085592031831"},
                "recipient": {"id": "446574812442849"},
                "timestamp": 1541364211913,
                "message": {"mid": "J1mD", "seq": 20230, "text": "yo"}
            }]
        }]
    }"#;
    let env = parse_envelope(body).expect("well-formed payload");
    assert_eq!(env.entries.len(), 1);
    let entry = &env.entries[0];
    assert_eq!(entry.page_id, b"446574812442849".to_vec());
    assert_eq!(entry.events.len(), 1);
    let ev = &entry.events[0];
    assert_eq!(ev.sender_id, b"1614085592031831".to_vec());
    assert_eq!(ev.recipient_id, b"446574812442849".to_vec());
    assert_eq!(ev.timestamp, 1541364211913);
    match &ev.payload {
        EventPayload::Message { mid, text } => {
            assert_eq!(mid, &b"J1mD".to_vec());
            assert_eq!(text, &b"yo".to_vec());
        }
        _ => panic!("expected a message payload"),
    }
}

#[test]
fn field_order_does_not_matter() {
    let body = br#"{"entry":[{"messaging":[{"timestamp":7,"message":{"text":"a","mid":"m"},"recipient":{"id":"r"},"sender":{"id":"s"}}],"id":"p"}],"object":"page"}"#;
    let env = parse_envelope(body).expect("well-formed payload");
    assert_eq!(env.entries[0].page_id, b"p".to_vec());
    assert_eq!(env.entries[0].events[0].sender_id, b"s".to_vec());
}

#[test]
fn unknown_members_of_any_kind_are_skipped() {
    let body = br#"{"x":null,"y":[1,2.5,-3e7,true,false,[{"z":"w"}]],"entry":[],"w":"s"}"#;
    let env = parse_envelope(body).expect("well-formed payload");
    assert_eq!(env.entries.len(), 0);
}

#[test]
fn an_event_without_message_text_is_passed_through_raw() {
    let body = br#"{"entry":[{"id":"p","messaging":[{"sender":{"id":"s"},"recipient":{"id":"r"},"timestamp":1,"postback":{"payload":"GO"}}]}]}"#;
    let env = parse_envelope(body).expect("well-formed payload");
    match &env.entries[0].events[0].payload {
        EventPayload::Other { raw } => {
            let text = String::from_utf8(raw.clone()).unwrap();
            assert!(text.starts_with('{') && text.ends_with('}'));
            assert!(text.contains("postback"));
            assert!(text.contains("GO"));
        }
        _ => panic!("expected a pass-through payload"),
    }
}

#[test]
fn a_message_without_text_is_passed_through_raw() {
    let body = br#"{"entry":[{"id":"p","messaging":[{"sender":{"id":"s"},"recipient":{"id":"r"},"timestamp":1,"message":{"mid":"m","attachment":"x"}}]}]}"#;
    let env = parse_envelope(body).expect("well-formed payload");
    assert!(matches!(
        env.entries[0].events[0].payload,
        EventPayload::Other { .. }
    ));
}

#[test]
fn string_escapes_are_decoded() {
    let body = br#"{"entry":[{"id":"p","messaging":[{"sender":{"id":"s"},"recipient":{"id":"r"},"timestamp":1,"message":{"mid":"m","text":"a\"b\\c\/d\ne\tf"}}]}]}"#;
    let env = parse_envelope(body).expect("well-formed payload");
    match &env.entries[0].events[0].payload {
        EventPayload::Message { text, .. } => {
            assert_eq!(text, &b"a\"b\\c/d\ne\tf".to_vec());
        }
        _ => panic!("expected a message payload"),
    }
}

#[test]
fn unicode_escapes_are_not_accepted() {
    // The grammar takes the simple JSON escapes only; a \u escape is
    // reported as malformed rather than decoded.
    let body = br#"{"entry":[{"id":"p","messaging":[{"sender":{"id":"s"},"recipient":{"id":"r"},"timestamp":1,"message":{"mid":"m","text":"\u0041"}}]}]}"#;
    assert!(parse_envelope(body).is_err());
}

#[test]
fn raw_utf8_in_strings_passes_through() {
    let body = "{\"entry\":[{\"id\":\"p\",\"messaging\":[{\"sender\":{\"id\":\"s\"},\"recipient\":{\"id\":\"r\"},\"timestamp\":1,\"message\":{\"mid\":\"m\",\"text\":\"héllo ✓\"}}]}]}".as_bytes();
    let env = parse_envelope(body).expect("well-formed payload");
    match &env.entries[0].events[0].payload {
        EventPayload::Message { text, .. } => {
            assert_eq!(text, &"héllo ✓".as_bytes().to_vec());
        }
        _ => panic!("expected a message payload"),
    }
}

#[test]
fn structurally_invalid_bodies_are_malformed() {
    assert!(parse_envelope(b"").is_err());
    assert!(parse_envelope(b"null").is_err());
    assert!(parse_envelope(b"[]").is_err());
    assert!(parse_envelope(br#"{"object":"page"}"#).is_err()); // no entry member
    assert!(parse_envelope(br#"{"entry":[}"#).is_err());
    assert!(parse_envelope(br#"{"entry":[]} trailing"#).is_err());
    assert!(parse_envelope(br#"{"entry":[{"id":"p"}]}"#).is_err()); // no messaging
    assert!(parse_envelope(br#"{"entry":[{"messaging":[]}]}"#).is_err()); // no id
    assert!(parse_envelope(br#"{"entry":[{"id":7,"messaging":[]}]}"#).is_err()); // id not a string
    assert!(parse_envelope(br#"{"entry":[{"id":"p","messaging":[{"sender":{"id":"s"},"recipient":{"id":"r"}}]}]}"#).is_err()); // no timestamp
}

#[test]
fn timestamps_parse_with_sign_and_reject_overlong_runs() {
    let ok = br#"{"entry":[{"id":"p","messaging":[{"sender":{"id":"s"},"recipient":{"id":"r"},"timestamp":-42,"message":{"mid":"m","text":"t"}}]}]}"#;
    let env = parse_envelope(ok).expect("well-formed payload");
    assert_eq!(env.entries[0].events[0].timestamp, -42);
    // Nineteen digits exceed the grammar's bound on a parsed integer.
    let too_long = br#"{"entry":[{"id":"p","messaging":[{"sender":{"id":"s"},"recipient":{"id":"r"},"timestamp":1234567890123456789,"message":{"mid":"m","text":"t"}}]}]}"#;
    assert!(parse_envelope(too_long).is_err());
}

#[test]
fn duplicate_members_take_the_last_value() {
    let body = br#"{"entry":[{"id":"first","id":"second","messaging":[]}]}"#;
    let env = parse_envelope(body).expect("well-formed payload");
    assert_eq!(env.entries[0].page_id, b"second".to_vec());
}

#[test]
fn empty_entry_list_is_a_valid_envelope() {
    let env = parse_envelope(br#"{ "entry" : [ ] }"#).expect("well-formed payload");
    assert_eq!(env.entries.len(), 0);
}
