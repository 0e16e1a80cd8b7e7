//! Wire codec tests: varint primitives, message framing, and the
//! subprotocol handshake.

use commonplace_doc::protocol::{
    decode_message, decode_var_bytes, decode_var_string, decode_var_uint, encode_awareness,
    encode_blue_event, encode_red_event, encode_sync_step1, encode_sync_step2, encode_update,
    encode_var_bytes, encode_var_string, encode_var_uint, ProtocolError, ProtocolMode, WsMessage,
};

#[test]
fn test_var_uint_roundtrip() {
    for value in [0u64, 1, 127, 128, 255, 256, 16383, 16384, u64::MAX] {
        let mut encoded = Vec::new();
        encode_var_uint(value, &mut encoded);
        let (decoded, consumed) = decode_var_uint(&encoded, 0).unwrap();
        assert_eq!(decoded, value, "failed for {}", value);
        assert_eq!(consumed, encoded.len());
    }
}

#[test]
fn test_var_bytes_roundtrip() {
    let data = b"hello world";
    let mut encoded = Vec::new();
    encode_var_bytes(data, &mut encoded);
    let (decoded, consumed) = decode_var_bytes(&encoded, 0).unwrap();
    assert_eq!(decoded, data);
    assert_eq!(consumed, encoded.len());
}

#[test]
fn test_sync_step1_roundtrip() {
    let sv = vec![1, 2, 3, 4, 5];
    let encoded = encode_sync_step1(&sv);
    let decoded = decode_message(&encoded).unwrap();
    match decoded {
        WsMessage::SyncStep1 { state_vector } => assert_eq!(state_vector, sv),
        _ => panic!("expected SyncStep1"),
    }
}

#[test]
fn test_update_roundtrip() {
    let update = vec![10, 20, 30];
    let encoded = encode_update(&update);
    let decoded = decode_message(&encoded).unwrap();
    match decoded {
        WsMessage::Update { update: u } => assert_eq!(u, update),
        _ => panic!("expected Update"),
    }
}

#[test]
fn test_blue_event_roundtrip() {
    let encoded = encode_blue_event("doc-123", "commit-456", 1234567890);
    let decoded = decode_message(&encoded).unwrap();
    match decoded {
        WsMessage::BlueEvent {
            doc_id,
            commit_id,
            timestamp,
        } => {
            assert_eq!(doc_id, "doc-123");
            assert_eq!(commit_id, "commit-456");
            assert_eq!(timestamp, 1234567890);
        }
        _ => panic!("expected BlueEvent"),
    }
}

#[test]
fn test_var_uint_exact_bytes() {
    let mut encoded = Vec::new();
    encode_var_uint(300, &mut encoded);
    assert_eq!(encoded, vec![0xAC, 0x02]);

    let mut one_byte = Vec::new();
    encode_var_uint(0, &mut one_byte);
    assert_eq!(one_byte, vec![0x00]);

    let mut boundary = Vec::new();
    encode_var_uint(128, &mut boundary);
    assert_eq!(boundary, vec![0x80, 0x01]);
}

#[test]
fn test_var_bytes_lengths() {
    for len in [0usize, 1, 11, 1024] {
        let data = vec![7u8; len];
        let mut encoded = Vec::new();
        encode_var_bytes(&data, &mut encoded);
        let (decoded, consumed) = decode_var_bytes(&encoded, 0).unwrap();
        assert_eq!(decoded, data);
        assert_eq!(consumed, encoded.len());
    }
}

#[test]
fn test_var_string_roundtrip() {
    let mut encoded = Vec::new();
    encode_var_string("grüße", &mut encoded);
    let (decoded, consumed) = decode_var_string(&encoded, 0).unwrap();
    assert_eq!(decoded, "grüße");
    assert_eq!(consumed, encoded.len());
}

#[test]
fn test_var_string_invalid_utf8() {
    // varbytes of [0xFF]: not valid UTF-8
    let encoded = vec![0x01, 0xFF];
    match decode_var_string(&encoded, 0) {
        Err(ProtocolError::InvalidUtf8) => {}
        other => panic!("expected InvalidUtf8, got {:?}", other),
    }
}

#[test]
fn test_decode_empty_message() {
    match decode_message(&[]) {
        Err(ProtocolError::UnexpectedEof) => {}
        other => panic!("expected UnexpectedEof, got {:?}", other),
    }
}

#[test]
fn test_decode_unknown_message_type() {
    match decode_message(&[9, 0, 0]) {
        Err(ProtocolError::UnknownMessageType(9)) => {}
        other => panic!("expected UnknownMessageType(9), got {:?}", other),
    }
}

#[test]
fn test_decode_unknown_sync_type() {
    match decode_message(&[0, 7, 0]) {
        Err(ProtocolError::UnknownSyncType(7)) => {}
        other => panic!("expected UnknownSyncType(7), got {:?}", other),
    }
}

#[test]
fn test_decode_truncated_sync() {
    match decode_message(&[0, 0, 5, 1, 2]) {
        Err(ProtocolError::UnexpectedEof) => {}
        other => panic!("expected UnexpectedEof, got {:?}", other),
    }
}

#[test]
fn test_awareness_roundtrip() {
    let data = vec![9, 8, 7];
    let encoded = encode_awareness(&data);
    assert_eq!(encoded[0], 1);
    match decode_message(&encoded).unwrap() {
        WsMessage::Awareness { data: d } => assert_eq!(d, data),
        _ => panic!("expected Awareness"),
    }
}

#[test]
fn test_red_event_roundtrip() {
    let encoded = encode_red_event("cursor", "{\"x\":1}");
    let decoded = decode_message(&encoded).unwrap();
    match decoded {
        WsMessage::RedEvent {
            event_type,
            payload,
        } => {
            assert_eq!(event_type, "cursor");
            assert_eq!(payload, "{\"x\":1}");
        }
        _ => panic!("expected RedEvent"),
    }
}

#[test]
fn test_commit_meta_decode_without_message() {
    // type 3, varstring("p"), varuint(5), varstring("a")
    let frame = vec![3, 1, b'p', 5, 1, b'a'];
    match decode_message(&frame).unwrap() {
        WsMessage::CommitMeta {
            parent_cid,
            timestamp,
            author,
            message,
        } => {
            assert_eq!(parent_cid, "p");
            assert_eq!(timestamp, 5);
            assert_eq!(author, "a");
            assert_eq!(message, None);
        }
        _ => panic!("expected CommitMeta"),
    }
}

#[test]
fn test_commit_meta_decode_with_message() {
    let frame = vec![3, 1, b'p', 5, 1, b'a', 2, b'h', b'i'];
    match decode_message(&frame).unwrap() {
        WsMessage::CommitMeta { message, .. } => {
            assert_eq!(message, Some("hi".to_string()));
        }
        _ => panic!("expected CommitMeta"),
    }
}

#[test]
fn test_sync_step2_roundtrip() {
    let update = vec![42u8; 11];
    let encoded = encode_sync_step2(&update);
    assert_eq!(&encoded[0..2], &[0, 1]);
    match decode_message(&encoded).unwrap() {
        WsMessage::SyncStep2 { update: u } => assert_eq!(u, update),
        _ => panic!("expected SyncStep2"),
    }
}

#[test]
fn test_select_subprotocol_first_supported() {
    let offered = vec!["y-websocket".to_string()];
    assert_eq!(
        ProtocolMode::select_subprotocol(&offered),
        Some(ProtocolMode::YWebSocket)
    );

    let both = vec!["commonplace".to_string(), "y-websocket".to_string()];
    assert_eq!(
        ProtocolMode::select_subprotocol(&both),
        Some(ProtocolMode::Commonplace)
    );

    let with_unknown = vec!["chat".to_string(), "y-websocket".to_string()];
    assert_eq!(
        ProtocolMode::select_subprotocol(&with_unknown),
        Some(ProtocolMode::YWebSocket)
    );

    let unsupported = vec!["chat".to_string()];
    assert_eq!(ProtocolMode::select_subprotocol(&unsupported), None);
}

#[test]
fn test_protocol_mode_as_str() {
    assert_eq!(ProtocolMode::YWebSocket.as_str(), "y-websocket");
    assert_eq!(ProtocolMode::Commonplace.as_str(), "commonplace");
}

#[test]
fn test_var_uint_overflow_protection_stops() {
    // ten continuation bytes exhaust the 64-bit shift range: decoding
    // stops after the tenth byte instead of reading on
    let data = vec![0x80u8; 10];
    let (value, consumed) = decode_var_uint(&data, 0).unwrap();
    assert_eq!(value, 0);
    assert_eq!(consumed, 10);

    let mut trailing = vec![0x80u8; 10];
    trailing.push(0x7F);
    let (_, consumed2) = decode_var_uint(&trailing, 0).unwrap();
    assert_eq!(consumed2, 10, "the byte after the stop is left unread");
}

#[test]
fn test_var_uint_truncated_is_eof() {
    let data = vec![0x80u8, 0x80];
    match decode_var_uint(&data, 0) {
        Err(ProtocolError::UnexpectedEof) => {}
        other => panic!("expected UnexpectedEof, got {:?}", other),
    }
}
