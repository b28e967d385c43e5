use prk_eventbus::bus::EventBus;
use prk_eventbus::message::with_stored_seqs;
use prk_eventbus::topic::pattern_matches;
use prk_eventbus::websocket::{handle_publish, plan_publish, PublishArgs};

fn reached(bus: &EventBus<u64>, topic: &str) -> Vec<u64> {
    bus.recipients(topic).into_iter().copied().collect()
}

#[test]
fn subscribers_are_reached_in_trie_order() {
    let mut bus: EventBus<u64> = EventBus::new(true);
    bus.subscribe("chat.*", 1);
    bus.subscribe("chat.user1", 2);
    bus.subscribe("#", 3);
    assert_eq!(reached(&bus, "chat.user1"), vec![3, 2, 1]);
    assert_eq!(reached(&bus, "chat.user2"), vec![3, 1]);
    assert_eq!(reached(&bus, "news"), vec![3]);
    assert_eq!(reached(&bus, "news.today.late"), vec![3]);
}

#[test]
fn hash_subscription_is_reached_once() {
    let mut bus: EventBus<u64> = EventBus::new(false);
    bus.subscribe("a.#", 7);
    bus.subscribe("chat.#", 8);
    assert_eq!(reached(&bus, "a"), vec![7]);
    assert_eq!(reached(&bus, "a.b"), vec![7]);
    assert_eq!(reached(&bus, "a.b.c"), vec![7]);
    assert_eq!(reached(&bus, "chat.a"), vec![8]);
    assert_eq!(reached(&bus, "b"), Vec::<u64>::new());
}

#[test]
fn hash_in_the_middle_stands_for_any_number_of_segments() {
    let mut bus: EventBus<u64> = EventBus::new(false);
    bus.subscribe("a.#.b", 5);
    assert_eq!(reached(&bus, "a.x.b"), vec![5]);
    assert_eq!(reached(&bus, "a.x.y.b"), vec![5]);
    assert_eq!(reached(&bus, "a.b"), vec![5]);
    assert_eq!(reached(&bus, "x.b"), Vec::<u64>::new());
}

#[test]
fn a_second_hash_is_an_ordinary_segment() {
    let mut bus: EventBus<u64> = EventBus::new(false);
    bus.subscribe("a.#.#", 6);
    assert_eq!(reached(&bus, "a.x.#"), vec![6]);
    assert_eq!(reached(&bus, "a.x.y"), Vec::<u64>::new());
}

#[test]
fn live_delivery_agrees_with_the_replay_filter() {
    let patterns = [
        "chat.*", "chat.#", "#", "*.b", "a.#.b", "a.#.#", "a.*.#", "#.b", "a.b", "*", "a.#.*.c", "", "a..b",
    ];
    let topics = [
        "chat", "chat.a", "chat.a.b", "a", "a.b", "a.x.b", "a.x.y.b", "a.x.#", "b", "x.b", "a.q.c", "a.q.r.c", "",
        "a..b", "#", "*",
    ];
    let mut bus: EventBus<u64> = EventBus::new(false);
    for (i, p) in patterns.iter().enumerate() {
        bus.subscribe(p, i as u64);
    }
    for t in topics.iter() {
        let got = reached(&bus, t);
        for (i, p) in patterns.iter().enumerate() {
            let copies = got.iter().filter(|c| **c == i as u64).count();
            let expected = if pattern_matches(t, p) { 1 } else { 0 };
            assert_eq!(copies, expected, "topic {:?} pattern {:?}", t, p);
        }
        assert!(got.iter().all(|c| (*c as usize) < patterns.len()));
    }
}

#[test]
fn every_subscriber_of_a_topic_gets_the_broadcast() {
    let mut bus: EventBus<u64> = EventBus::new(true);
    bus.subscribe("chat.multi", 10);
    bus.subscribe("chat.multi", 11);
    assert_eq!(reached(&bus, "chat.multi"), vec![10, 11]);
    let msg = bus.publish("chat.multi", 42, b"Broadcast message".to_vec());
    assert_eq!(msg.topic, "chat.multi");
    assert_eq!(String::from_utf8_lossy(&msg.payload), "Broadcast message");
}

#[test]
fn new_subscription_reaches_only_what_its_pattern_delivers() {
    let mut bus: EventBus<u64> = EventBus::new(true);
    bus.subscribe("chat.user1", 1);
    let before = reached(&bus, "chat.user1");
    bus.subscribe("chat.*", 2);
    let after = reached(&bus, "chat.user1");
    assert!(after.contains(&2));
    assert_eq!(after.iter().filter(|c| **c != 2).copied().collect::<Vec<_>>(), before);
    assert!(!reached(&bus, "other.user1").contains(&2));
}

#[test]
fn publish_numbers_messages_consecutively() {
    let mut bus: EventBus<u64> = EventBus::new(true);
    assert_eq!(bus.next_seq(), 0);
    let a = bus.publish_at("chat.user1", 1, b"Hello from User1!".to_vec(), 1700000000);
    let b = bus.publish_at("chat.user1", 2, b"How's it going?".to_vec(), 1700000001);
    assert_eq!(a.seq, 0);
    assert_eq!(b.seq, 1);
    assert_eq!(b.message_id, 2);
    assert_eq!(a.metadata.timestamp, 1700000000);
    assert_eq!(a.metadata.content_type, "application/json");
    assert_eq!(bus.next_seq(), 2);
    let c = bus.publish("chat.user1", 3, vec![]);
    assert_eq!(c.seq, 2);
    assert!(c.metadata.timestamp > 1600000000);
}

#[test]
fn batch_gets_consecutive_numbers_and_fresh_ids() {
    let mut bus: EventBus<u64> = EventBus::new(true);
    bus.publish_at("x", 1, vec![], 0);
    let batch = vec![
        ("chat.user1".to_string(), b"Batch message 1".to_vec()),
        ("chat.user1".to_string(), b"Batch message 2".to_vec()),
    ];
    let msgs = bus.publish_batch(batch);
    assert_eq!(msgs.len(), 2);
    assert_eq!(msgs[0].seq, 1);
    assert_eq!(msgs[1].seq, 2);
    assert_eq!(msgs[1].payload, b"Batch message 2".to_vec());
    assert_ne!(msgs[0].message_id, msgs[1].message_id);
    assert_eq!(msgs[0].metadata.timestamp, msgs[1].metadata.timestamp);
    assert_eq!(bus.next_seq(), 3);
}

#[test]
fn duplicate_publish_is_dropped() {
    let mut bus: EventBus<u64> = EventBus::new(false);
    bus.subscribe("chat.dedupe", 1);
    let id = "67e55044-10b1-426f-9247-bb680e5fe0c8".to_string();
    let first = plan_publish(PublishArgs {
        topic: "chat.dedupe".to_string(),
        payload: "First send".to_string(),
        message_id: Some(id.clone()),
    });
    let msg = handle_publish(&mut bus, first, false).expect("first send is published");
    assert_eq!(String::from_utf8_lossy(&msg.payload), "First send");
    assert_eq!(msg.message_id, 0x67e5504410b1426f9247bb680e5fe0c8);
    let again = plan_publish(PublishArgs {
        topic: "chat.dedupe".to_string(),
        payload: "Duplicate send".to_string(),
        message_id: Some(id),
    });
    assert!(handle_publish(&mut bus, again, true).is_none());
    assert_eq!(bus.next_seq(), 1);
}

#[test]
fn delivered_messages_carry_the_stored_seq() {
    let mut bus: EventBus<u64> = EventBus::new(true);
    let msg = bus.publish_at("chat.persist", 9, b"Persistent message".to_vec(), 5);
    assert_eq!(msg.seq, 0);
    let stored = msg.with_seq(1);
    assert_eq!(stored.seq, 1);
    assert_eq!(stored.message_id, 9);
    assert_eq!(stored.topic, "chat.persist");
    assert_eq!(stored.metadata.timestamp, 5);
    let batch = bus.publish_batch(vec![("a".to_string(), vec![1]), ("b".to_string(), vec![2])]);
    let stored = with_stored_seqs(batch, &vec![7, 8]);
    assert_eq!(stored.iter().map(|m| m.seq).collect::<Vec<_>>(), vec![7, 8]);
    assert_eq!(stored[1].topic, "b");
    assert_eq!(stored[1].payload, vec![2]);
}

#[test]
fn each_distinct_subscriber_is_reached_once_when_its_pattern_matches() {
    let patterns = ["chat.*", "chat.#", "a.#.b", "#", "x"];
    let mut bus: EventBus<u64> = EventBus::new(true);
    for (i, p) in patterns.iter().enumerate() {
        bus.subscribe(p, 100 + i as u64);
    }
    let got = reached(&bus, "chat.room");
    let mut expected: Vec<u64> = patterns
        .iter()
        .enumerate()
        .filter(|(_, p)| pattern_matches("chat.room", p))
        .map(|(i, _)| 100 + i as u64)
        .collect();
    let mut sorted = got.clone();
    sorted.sort();
    expected.sort();
    assert_eq!(sorted, expected);
}
