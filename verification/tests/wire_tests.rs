//! Tests of the wire codecs: exact canonical forms, escaping, whitespace
//! tolerance, numeric bounds, and malformed inputs.

use parlance::discovery::DiscoveryMessage;
use parlance::messaging::TextMessage;

#[test]
fn test_announce_canonical_form() {
    let msg = DiscoveryMessage::Announce {
        nickname: "Alice".to_string(),
        tcp_port: 8080,
    };
    assert_eq!(
        msg.encode(),
        r#"{"type":"announce","nickname":"Alice","tcp_port":8080}"#
    );
}

#[test]
fn test_goodbye_canonical_form() {
    let msg = DiscoveryMessage::Goodbye {
        nickname: "Bob".to_string(),
    };
    assert_eq!(msg.encode(), r#"{"type":"goodbye","nickname":"Bob"}"#);
}

#[test]
fn test_text_message_canonical_form() {
    let msg = TextMessage {
        from: "Alice".to_string(),
        content: "hi".to_string(),
        timestamp: 42,
    };
    assert_eq!(
        msg.encode(),
        r#"{"from":"Alice","content":"hi","timestamp":42}"#
    );
}

#[test]
fn test_decode_with_whitespace() {
    let json = "{ \"type\" : \"announce\" , \"nickname\" : \"Bob\" , \"tcp_port\" : 9090 }";
    let msg = DiscoveryMessage::decode(json).expect("whitespace should be tolerated");
    match msg {
        DiscoveryMessage::Announce { nickname, tcp_port } => {
            assert_eq!(nickname, "Bob");
            assert_eq!(tcp_port, 9090);
        }
        _ => panic!("Wrong message type"),
    }
}

#[test]
fn test_goodbye_roundtrip() {
    let original = DiscoveryMessage::Goodbye {
        nickname: "Zo\u{00EB}".to_string(),
    };
    let json = original.encode();
    match DiscoveryMessage::decode(&json).unwrap() {
        DiscoveryMessage::Goodbye { nickname } => assert_eq!(nickname, "Zo\u{00EB}"),
        _ => panic!("Wrong message type"),
    }
}

#[test]
fn test_content_with_quotes_and_newlines() {
    let content = "line one\nline two \"quoted\" \\ backslash\ttab";
    let msg = TextMessage {
        from: "Alice".to_string(),
        content: content.to_string(),
        timestamp: 7,
    };
    let json = msg.encode();
    assert!(json.contains("\\n"));
    assert!(json.contains("\\\""));
    let decoded = TextMessage::decode(&json).unwrap();
    assert_eq!(decoded.content, content);
}

#[test]
fn test_control_characters_escaped() {
    let content = "bell\u{7} and backspace\u{8}";
    let msg = TextMessage {
        from: "a".to_string(),
        content: content.to_string(),
        timestamp: 0,
    };
    let json = msg.encode();
    assert!(json.contains("\\u0007"));
    assert!(json.contains("\\b"));
    let decoded = TextMessage::decode(&json).unwrap();
    assert_eq!(decoded.content, content);
}

#[test]
fn test_decode_unicode_escape() {
    let json = "{\"from\":\"a\",\"content\":\"A\\u00e9\",\"timestamp\":0}";
    let decoded = TextMessage::decode(json).unwrap();
    assert_eq!(decoded.content, "A\u{00E9}");
}

#[test]
fn test_decode_surrogate_pair_escape() {
    let json = "{\"from\":\"a\",\"content\":\"\\ud83e\\udd80\",\"timestamp\":0}";
    let decoded = TextMessage::decode(json).unwrap();
    assert_eq!(decoded.content, "\u{1F980}");
}

#[test]
fn test_decode_lone_surrogate_fails() {
    let json = r#"{"from":"a","content":"\ud83e","timestamp":0}"#;
    assert!(TextMessage::decode(json).is_err());
}

#[test]
fn test_negative_timestamp_roundtrip() {
    for ts in [-1i64, -86_400, i64::MIN, i64::MAX, 0] {
        let msg = TextMessage {
            from: "t".to_string(),
            content: "c".to_string(),
            timestamp: ts,
        };
        let decoded = TextMessage::decode(&msg.encode()).unwrap();
        assert_eq!(decoded.timestamp, ts);
    }
}

#[test]
fn test_port_out_of_range_rejected() {
    let json = r#"{"type":"announce","nickname":"Bob","tcp_port":65536}"#;
    assert!(DiscoveryMessage::decode(json).is_err());
}

#[test]
fn test_leading_zero_rejected() {
    let json = r#"{"type":"announce","nickname":"Bob","tcp_port":09090}"#;
    assert!(DiscoveryMessage::decode(json).is_err());
}

#[test]
fn test_trailing_garbage_rejected() {
    let json = r#"{"type":"goodbye","nickname":"Bob"} extra"#;
    assert!(DiscoveryMessage::decode(json).is_err());
}

#[test]
fn test_truncated_message_rejected() {
    let json = r#"{"type":"announce","nickname":"Bob""#;
    assert!(DiscoveryMessage::decode(json).is_err());
}

#[test]
fn test_raw_control_in_string_rejected() {
    let json = "{\"type\":\"goodbye\",\"nickname\":\"B\u{1}ob\"}";
    assert!(DiscoveryMessage::decode(json).is_err());
}

#[test]
fn test_format_exact_time() {
    let msg = TextMessage {
        from: "Alice".to_string(),
        content: "hi".to_string(),
        timestamp: 3_661,
    };
    assert_eq!(msg.format(), "[01:01:01] Alice: hi");
}

#[test]
fn test_format_negative_timestamp() {
    let msg = TextMessage {
        from: "a".to_string(),
        content: "b".to_string(),
        timestamp: -1,
    };
    assert_eq!(msg.format(), "[23:59:59] a: b");
}

#[test]
fn test_format_out_of_range_timestamp() {
    for ts in [i64::MIN, i64::MAX, 8_210_266_876_800, -8_334_601_228_801] {
        let msg = TextMessage {
            from: "a".to_string(),
            content: "b".to_string(),
            timestamp: ts,
        };
        assert_eq!(msg.format(), "[??:??:??] a: b");
    }
}

#[test]
fn test_format_range_boundaries() {
    // The display range must agree with the calendar the reference clock
    // library can name.
    assert!(chrono::DateTime::from_timestamp(8_210_266_876_799, 0).is_some());
    assert!(chrono::DateTime::from_timestamp(8_210_266_876_800, 0).is_none());
    assert!(chrono::DateTime::from_timestamp(-8_334_601_228_800, 0).is_some());
    assert!(chrono::DateTime::from_timestamp(-8_334_601_228_801, 0).is_none());

    let last = TextMessage {
        from: "a".to_string(),
        content: "b".to_string(),
        timestamp: 8_210_266_876_799,
    };
    assert_eq!(last.format(), "[23:59:59] a: b");
    let first = TextMessage {
        from: "a".to_string(),
        content: "b".to_string(),
        timestamp: -8_334_601_228_800,
    };
    assert_eq!(first.format(), "[00:00:00] a: b");
}
