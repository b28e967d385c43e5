use prk_eventbus::client::{
    ack_request, publish_request, publish_request_with, receive_step, retries_exhausted, ClientConfig, ClientRequest,
    ConnectRetry, Incoming, ReceiveAction, Reconnect,
};
use prk_eventbus::error::EventBusError;
use prk_eventbus::message::{Message, Metadata};

#[test]
fn client_config_default() {
    let c = ClientConfig::default();
    assert_eq!(c.url, "ws://127.0.0.1:3000/ws");
    assert_eq!(c.reconnect_interval, std::time::Duration::from_secs(5));
    assert_eq!(c.max_retries, 3);
}

#[test]
fn publish_request_keeps_or_makes_an_id() {
    match publish_request("chat.persist", "Persistent message", Some("abc".to_string()), Some(0)) {
        ClientRequest::Publish { topic, payload, message_id, ttl } => {
            assert_eq!(topic, "chat.persist");
            assert_eq!(payload, "Persistent message");
            assert_eq!(message_id, "abc");
            assert_eq!(ttl, Some(0));
        }
        _ => panic!("expected a publish"),
    }
    match publish_request("t", "p", None, None) {
        ClientRequest::Publish { message_id, .. } => {
            assert_eq!(message_id.len(), 36);
            let parsed = uuid::Uuid::parse_str(&message_id).expect("a uuid");
            assert_eq!(parsed.get_version_num(), 4);
        }
        _ => panic!("expected a publish"),
    }
}

#[test]
fn ack_request_writes_the_id_as_text() {
    match ack_request(7, 0xa1a2a3a4b1b2c1c2d1d2d3d4d5d6d7d8) {
        ClientRequest::Ack { seq, message_id } => {
            assert_eq!(seq, 7);
            assert_eq!(message_id, "a1a2a3a4-b1b2-c1c2-d1d2-d3d4d5d6d7d8");
        }
        _ => panic!("expected an ack"),
    }
}

#[test]
fn connect_retry_makes_max_retries_attempts() {
    let mut r = ConnectRetry::new(3);
    let mut attempts = 0;
    while r.should_attempt() {
        attempts += 1;
        r.failed();
    }
    assert_eq!(attempts, 3);
    assert!(!ConnectRetry::new(0).should_attempt());
}

#[test]
fn reconnect_gives_up_at_the_limit() {
    let mut r = Reconnect::new(3);
    assert!(!r.failed());
    assert!(!r.failed());
    assert!(r.failed());
    let mut z = Reconnect::new(0);
    assert!(z.failed());
    match retries_exhausted("refused") {
        EventBusError::Connection(text) => assert_eq!(text, "Max retries exceeded: refused"),
        _ => panic!("expected a connection error"),
    }
}

fn message() -> Message {
    Message {
        seq: 1,
        message_id: 2,
        topic: "chat.reconnect".to_string(),
        payload: b"After reconnect".to_vec(),
        metadata: Metadata { timestamp: 3, content_type: "application/json".to_string() },
    }
}

#[test]
fn receive_steps() {
    match receive_step(Incoming::Message(message())) {
        ReceiveAction::Deliver(m) => {
            assert_eq!(m.topic, "chat.reconnect");
            assert_eq!(String::from_utf8_lossy(&m.payload), "After reconnect");
        }
        _ => panic!("expected delivery"),
    }
    match receive_step(Incoming::Malformed("bad".to_string())) {
        ReceiveAction::Fail(EventBusError::Serialization(e)) => assert_eq!(e, "bad"),
        _ => panic!("expected a serialization error"),
    }
    assert!(matches!(receive_step(Incoming::Other), ReceiveAction::Wait));
    match receive_step(Incoming::Failed("reset".to_string())) {
        ReceiveAction::ReconnectThenFail(EventBusError::WebSocket(e)) => assert_eq!(e, "reset"),
        _ => panic!("expected reconnect then failure"),
    }
    assert!(matches!(receive_step(Incoming::Ended), ReceiveAction::ReconnectThenWait));
}

#[test]
fn cloned_config_keeps_its_interval() {
    let c = ClientConfig { url: "ws://127.0.0.1:3001/ws".to_string(), reconnect_interval: std::time::Duration::from_millis(200), max_retries: 5 };
    let d = c.clone();
    assert_eq!(d.reconnect_interval, std::time::Duration::from_millis(200));
    assert_eq!(d.max_retries, 5);
    assert_eq!(d.url, "ws://127.0.0.1:3001/ws");
}

#[test]
fn publish_request_uses_the_fresh_id_only_when_none_is_given() {
    match publish_request_with("t", "p", None, "fresh".to_string(), Some(5)) {
        ClientRequest::Publish { message_id, ttl, .. } => {
            assert_eq!(message_id, "fresh");
            assert_eq!(ttl, Some(5));
        }
        _ => panic!("expected a publish"),
    }
    match publish_request_with("t", "p", Some("given".to_string()), "fresh".to_string(), None) {
        ClientRequest::Publish { message_id, .. } => assert_eq!(message_id, "given"),
        _ => panic!("expected a publish"),
    }
}
