use prk_eventbus::topic::{pattern_matches, split_segments};

fn segs(s: &str) -> Vec<String> {
    split_segments(s)
}

#[test]
fn split_keeps_empty_segments() {
    assert_eq!(segs("a..b"), vec!["a".to_string(), "".to_string(), "b".to_string()]);
    assert_eq!(segs(""), vec!["".to_string()]);
    assert_eq!(segs("chat.user1"), vec!["chat".to_string(), "user1".to_string()]);
    assert_eq!(segs("a."), vec!["a".to_string(), "".to_string()]);
}

#[test]
fn star_matches_one_segment() {
    assert!(pattern_matches("chat.user1", "chat.*"));
    assert!(!pattern_matches("chat", "chat.*"));
    assert!(!pattern_matches("chat.a.b", "chat.*"));
    assert!(pattern_matches("user.created", "*.created"));
}

#[test]
fn exact_patterns_need_equal_segments() {
    assert!(pattern_matches("chat.persist", "chat.persist"));
    assert!(!pattern_matches("chat.persist", "chat.other"));
    assert!(!pattern_matches("chat", "chat.persist"));
}

#[test]
fn hash_matches_head_and_tail() {
    assert!(pattern_matches("a.b.c", "a.#"));
    assert!(pattern_matches("a", "a.#"));
    assert!(pattern_matches("a.x.y.b", "a.#.b"));
    assert!(pattern_matches("a.b", "a.#.b"));
    assert!(!pattern_matches("x.b", "a.#.b"));
    assert!(!pattern_matches("a.b", "a.#.b.c"));
    assert!(pattern_matches("anything.at.all", "#"));
}

#[test]
fn only_the_first_hash_is_a_wildcard() {
    assert!(pattern_matches("a.x.#", "a.#.#"));
    assert!(!pattern_matches("a.x.y", "a.#.#"));
}
