//! Room/session layer tests: handshake, fan-out, echo suppression, and
//! connection nodes.

use commonplace_doc::document::{ContentType, DocumentStore};
use commonplace_doc::node::{ConnectionNode, Event, NodeError};
use commonplace_doc::protocol::{decode_message, ProtocolMode, WsMessage};
use commonplace_doc::room::{
    CommitNotification, OutgoingMessage, Room, RoomError, RoomManager, WsConnection,
};
use yrs::updates::encoder::Encode;
use yrs::{ReadTxn, Text, Transact};

fn frames(conn: &WsConnection) -> Vec<Vec<u8>> {
    conn.outbound
        .iter()
        .filter_map(|m| match m {
            OutgoingMessage::Binary(b) => Some(b.clone()),
            OutgoingMessage::Close => None,
        })
        .collect()
}

/// The handshake scenario: the client offers `y-websocket`, the server
/// selects it; the client's SyncStep1 with an empty state vector is
/// answered with a SyncStep2 frame.
#[test]
fn test_websocket_handshake() {
    let offered = vec!["y-websocket".to_string()];
    assert_eq!(
        ProtocolMode::select_subprotocol(&offered),
        Some(ProtocolMode::YWebSocket)
    );

    // an empty state vector encodes as a single zero byte
    let empty_sv = yrs::StateVector::default().encode_v1();
    assert_eq!(empty_sv, vec![0x00]);

    // client frame: type 0, subtype 0, varbytes(empty state vector)
    let client_frame = vec![0x00, 0x00, 0x01, 0x00];
    match decode_message(&client_frame).unwrap() {
        WsMessage::SyncStep1 { state_vector } => assert_eq!(state_vector, empty_sv),
        _ => panic!("expected SyncStep1"),
    }

    let mut store = DocumentStore::new();
    store.get_or_create_with_id("D", ContentType::Json);
    let room = Room::new("D".to_string());
    let reply = room.handle_sync_step1(&store, &empty_sv).unwrap();
    assert_eq!(&reply[0..2], &[0x00, 0x01], "reply is a SyncStep2 frame");
    match decode_message(&reply).unwrap() {
        WsMessage::SyncStep2 { .. } => {}
        _ => panic!("expected SyncStep2"),
    }
}

/// On a live document, malformed state-vector bytes are the one failure:
/// the reply is owed for bytes that decode.
#[test]
fn test_sync_step1_decode_error() {
    let mut store = DocumentStore::new();
    store.get_or_create_with_id("D", ContentType::Json);
    let room = Room::new("D".to_string());

    // a truncated varint is not an encoded state vector
    match room.handle_sync_step1(&store, &[0xFF]) {
        Err(RoomError::DecodeError(_)) => {}
        other => panic!("expected DecodeError, got {:?}", other),
    }
    // the well-formed empty state vector is answered
    assert!(room.handle_sync_step1(&store, &[0x00]).is_ok());
}

/// Bytes that do not decode as an update never apply, and the room is
/// left untouched by the failure.
#[test]
fn test_handle_update_rejects_bad_bytes() {
    let mut store = DocumentStore::new();
    store.get_or_create_with_id("D", ContentType::Json);
    let mut room = Room::new("D".to_string());
    let c = WsConnection::new("D".to_string(), ProtocolMode::YWebSocket, 4, 0);
    let c_id = c.id.clone();
    room.add_connection(c);

    match room.handle_update(&store, &c_id, &[0xFF, 0xFF]) {
        Err(RoomError::ApplyError(_)) => {}
        other => panic!("expected ApplyError, got {:?}", other),
    }
    assert!(frames(&room.connections()[0]).is_empty());
}

#[test]
fn test_sync_step1_document_not_found() {
    let store = DocumentStore::new();
    let room = Room::new("missing".to_string());
    match room.handle_sync_step1(&store, &[]) {
        Err(RoomError::DocumentNotFound) => {}
        other => panic!("expected DocumentNotFound, got {:?}", other),
    }
}

#[test]
fn test_get_state_vector() {
    let mut store = DocumentStore::new();
    store.get_or_create_with_id("D", ContentType::Json);
    let room = Room::new("D".to_string());
    assert!(room.get_state_vector(&store).is_ok());

    let empty_room = Room::new("missing".to_string());
    assert!(matches!(
        empty_room.get_state_vector(&store),
        Err(RoomError::DocumentNotFound)
    ));
}

/// Echo suppression: after an update from connection A, no other
/// connection has received a frame except the update frame, and A itself
/// has received nothing.
#[test]
fn test_echo_suppression() {
    let mut store = DocumentStore::new();
    store.get_or_create_with_id("D", ContentType::Text);

    // a real update from a peer replica
    let peer = yrs::Doc::new();
    {
        let t = peer.get_or_insert_text("t");
        let mut txn = peer.transact_mut();
        t.insert(&mut txn, 0, "x");
    }
    let update = peer
        .transact()
        .encode_state_as_update_v1(&yrs::StateVector::default());

    let mut room = Room::new("D".to_string());
    let a = WsConnection::new("D".to_string(), ProtocolMode::YWebSocket, 16, 0);
    let b = WsConnection::new("D".to_string(), ProtocolMode::YWebSocket, 16, 0);
    let a_id = a.id.clone();
    room.add_connection(a);
    room.add_connection(b);

    room.handle_update(&store, &a_id, &update).unwrap();

    let conns = room.connections();
    assert_eq!(conns.len(), 2);
    for conn in conns.iter() {
        if conn.id == a_id {
            assert!(frames(conn).is_empty(), "the sender receives nothing");
        } else {
            let got = frames(conn);
            assert_eq!(got.len(), 1);
            match decode_message(&got[0]).unwrap() {
                WsMessage::Update { update: u } => assert_eq!(u, update),
                _ => panic!("expected Update frame"),
            }
        }
    }
}

/// Commit fan-out: a commit notification for the room's document reaches
/// every connection as an Update frame carrying the commit's bytes.
#[test]
fn test_commit_fan_out() {
    let mut room = Room::new("D".to_string());
    let a = WsConnection::new("D".to_string(), ProtocolMode::Commonplace, 16, 0);
    room.add_connection(a);

    let update = vec![1u8, 2, 3, 4];
    let note = CommitNotification {
        doc_id: "D".to_string(),
        commit_id: "c1".to_string(),
        timestamp: 7,
    };
    room.handle_commit_notification(&note, &update);

    let got = frames(&room.connections()[0]);
    assert_eq!(got.len(), 1);
    match decode_message(&got[0]).unwrap() {
        WsMessage::Update { update: u } => assert_eq!(u, update),
        _ => panic!("expected Update frame"),
    }

    // a notification for another document is ignored
    let other = CommitNotification {
        doc_id: "E".to_string(),
        commit_id: "c2".to_string(),
        timestamp: 8,
    };
    room.handle_commit_notification(&other, &update);
    assert_eq!(frames(&room.connections()[0]).len(), 1);
}

#[test]
fn test_try_send_drops_when_full() {
    let mut c = WsConnection::new("D".to_string(), ProtocolMode::YWebSocket, 1, 0);
    assert!(c.try_send_binary(vec![1]));
    assert!(!c.try_send_binary(vec![2]), "full queue drops the frame");
    assert_eq!(c.outbound.len(), 1);
    let drained = c.take_outbound();
    assert_eq!(drained.len(), 1);
    assert_eq!(c.outbound.len(), 0);
}

#[test]
fn test_connection_lifecycle_in_room() {
    let mut room = Room::new("D".to_string());
    let c = WsConnection::new("D".to_string(), ProtocolMode::YWebSocket, 4, 0);
    let id = c.id.clone();
    room.add_connection(c);
    assert_eq!(room.connection_count(), 1);
    room.remove_connection(&id);
    assert_eq!(room.connection_count(), 0);
}

#[test]
fn test_room_manager_create_and_cleanup() {
    let mut mgr = RoomManager::new();
    let i = mgr.get_or_create_room("D");
    let j = mgr.get_or_create_room("D");
    assert_eq!(i, j, "one room per document");
    let _k = mgr.get_or_create_room("E");
    mgr.cleanup_empty_rooms();
    // both rooms were empty: the sweep removed them
    let fresh = mgr.get_or_create_room("D");
    assert_eq!(fresh, 0);
}

#[test]
fn test_connection_node_creation() {
    let conn = ConnectionNode::new("doc-1".to_string());
    assert_eq!(conn.node_type(), "connection");
    assert_eq!(conn.target_id(), "doc-1");
    assert!(conn.is_healthy());
    assert_ne!(conn.id(), "doc-1");
}

#[test]
fn test_connection_node_with_id() {
    let conn = ConnectionNode::with_id("conn-123".to_string(), "doc-1".to_string());
    assert_eq!(conn.id(), "conn-123");
    assert_eq!(conn.target_id(), "doc-1");
}

#[test]
fn test_connection_node_red_events() {
    let conn = ConnectionNode::with_id("conn-1".to_string(), "doc-1".to_string());
    let event = Event {
        source: "external".to_string(),
        event_type: "cursor".to_string(),
        payload: commonplace_doc::json::parse_json("{\"x\":100}").unwrap(),
    };
    let out = conn.receive_event(event).unwrap();
    assert_eq!(out.event_type, "cursor");
    assert_eq!(out.source, "conn-1", "the source is rewritten to the node");
}

#[test]
fn test_connection_node_shutdown() {
    let mut conn = ConnectionNode::new("doc-1".to_string());
    assert!(conn.is_healthy());
    assert_eq!(conn.blue_subscriber_count(), 0);
    conn.shutdown();
    assert!(!conn.is_healthy());

    let event = Event {
        source: "other".to_string(),
        event_type: "test".to_string(),
        payload: commonplace_doc::json::parse_json("{}").unwrap(),
    };
    let result = conn.receive_event(event);
    assert!(matches!(result, Err(NodeError::Shutdown)));
}
