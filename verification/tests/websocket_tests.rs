use prk_eventbus::websocket::{
    connection_step, plan_publish, resolve_message_id, ConnectionAction, Frame, PublishArgs, WsConfig,
    WsRequest, message_id_from,
};

fn args(topic: &str, payload: &str, id: Option<&str>) -> PublishArgs {
    PublishArgs { topic: topic.to_string(), payload: payload.to_string(), message_id: id.map(|s| s.to_string()) }
}

#[test]
fn ws_config_default() {
    let c = WsConfig::default();
    assert_eq!(c.channel_capacity, 100);
    assert!(c.auto_ack);
}

#[test]
fn given_uuid_is_kept() {
    let p = plan_publish(args("t", "héllo", Some("550e8400-e29b-41d4-a716-446655440000")));
    assert_eq!(p.message_id, 0x550e8400e29b41d4a716446655440000);
    assert_eq!(p.payload, "héllo".as_bytes().to_vec());
    assert_eq!(p.topic, "t");
    let braced = resolve_message_id(&Some("{550e8400-e29b-41d4-a716-446655440000}".to_string()));
    assert_eq!(braced, 0x550e8400e29b41d4a716446655440000);
}

#[test]
fn unreadable_or_missing_id_gets_a_random_v4() {
    for id in [Some("not-a-uuid"), None] {
        let p = plan_publish(args("t", "x", id));
        assert_eq!(p.message_id & 0xF000_C000_0000_0000_0000u128, 0x4000_8000_0000_0000_0000u128);
    }
    let a = resolve_message_id(&None);
    let b = resolve_message_id(&None);
    assert_ne!(a, b);
}

#[test]
fn message_id_prefers_the_parsed_one() {
    assert_eq!(message_id_from(Some(5), 9), 5);
    assert_eq!(message_id_from(None, 9), 9);
}

#[test]
fn connection_steps() {
    match connection_step(Frame::Request(WsRequest::Subscribe { pattern: "chat.*".to_string(), starting_seq: Some(0) })) {
        ConnectionAction::Subscribe { pattern, starting_seq } => {
            assert_eq!(pattern, "chat.*");
            assert_eq!(starting_seq, Some(0));
        }
        _ => panic!("expected a subscription"),
    }
    match connection_step(Frame::Request(WsRequest::PublishBulk {
        messages: vec![args("a.b", "Batch message 1", Some("x")), args("c", "Batch message 2", None)],
        ttl: Some(3600),
    })) {
        ConnectionAction::PublishBatch { messages, ttl } => {
            assert_eq!(ttl, Some(3600));
            assert_eq!(messages, vec![
                ("a.b".to_string(), b"Batch message 1".to_vec()),
                ("c".to_string(), b"Batch message 2".to_vec()),
            ]);
        }
        _ => panic!("expected a batch"),
    }
    match connection_step(Frame::Request(WsRequest::Acknowledge { seq: 4, message_id: 9 })) {
        ConnectionAction::Acknowledge { seq, message_id } => {
            assert_eq!(seq, 4);
            assert_eq!(message_id, 9);
        }
        _ => panic!("expected an acknowledgement"),
    }
    match connection_step(Frame::Request(WsRequest::Publish { data: args("t", "p", None), ttl: None })) {
        ConnectionAction::Publish { data, ttl } => {
            assert_eq!(data.topic, "t");
            assert_eq!(ttl, None);
        }
        _ => panic!("expected a publish"),
    }
    assert!(matches!(connection_step(Frame::Malformed), ConnectionAction::Continue));
    assert!(matches!(connection_step(Frame::Other), ConnectionAction::Continue));
    assert!(matches!(connection_step(Frame::Close), ConnectionAction::Stop));
    assert!(matches!(connection_step(Frame::Failed), ConnectionAction::Stop));
}
