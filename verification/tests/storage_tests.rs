use prk_eventbus::error::EventBusError;
use prk_eventbus::message::{Message, Metadata};
use prk_eventbus::storage::{filter_rows, MessageRow, NoStorage};

fn row(seq: i64, id: &str, topic: &str) -> MessageRow {
    MessageRow {
        seq,
        message_id: id.to_string(),
        topic: topic.to_string(),
        payload: b"Persistent message".to_vec(),
        metadata: "{}".to_string(),
    }
}

fn metadata() -> Metadata {
    Metadata { timestamp: 10, content_type: "application/json".to_string() }
}

#[test]
fn no_storage_keeps_nothing() {
    let s = NoStorage;
    let m = Message { seq: 5, message_id: 1, topic: "a".to_string(), payload: vec![], metadata: metadata() };
    assert_eq!(s.insert_message(&m, None).unwrap(), 0);
    assert_eq!(s.insert_messages(&[m], Some(3)).unwrap(), vec![0]);
    assert!(s.get_messages_after(0, "#").unwrap().is_empty());
    assert!(!s.is_message_processed(1).unwrap());
    assert!(s.acknowledge_message(5, 1).is_ok());
}

#[test]
fn replay_keeps_matching_rows_in_order() {
    let rows = vec![row(1, "x", "chat.persist"), row(2, "x", "news.today"), row(3, "x", "chat.user1")];
    let kept = filter_rows(rows, "chat.*");
    assert_eq!(kept.iter().map(|r| r.seq).collect::<Vec<_>>(), vec![1, 3]);
}

#[test]
fn rows_become_messages_when_their_id_parses() {
    let m = row(4, "550e8400-e29b-41d4-a716-446655440000", "chat.persist")
        .into_message(metadata())
        .expect("a valid id");
    assert_eq!(m.seq, 4);
    assert_eq!(m.message_id, 0x550e8400e29b41d4a716446655440000);
    assert_eq!(m.topic, "chat.persist");
    assert_eq!(m.metadata.timestamp, 10);
    assert!(row(4, "nope", "t").into_message(metadata()).is_none());
}

#[test]
fn error_texts() {
    assert_eq!(EventBusError::InvalidMessage("Missing topic".to_string()).to_string(), "Invalid message format: Missing topic");
    assert_eq!(EventBusError::NotImplemented.to_string(), "Not Implemented");
    assert_eq!(EventBusError::Connection("x".to_string()).to_string(), "IO Error: x");
    assert_eq!(EventBusError::IoError("y".to_string()).to_string(), "Connection failed: y");
    assert_eq!(EventBusError::Timeout.to_string(), "Timeout error");
}
