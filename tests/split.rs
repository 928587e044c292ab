use masquerade::models::Profile;
use masquerade::split::{extract_masq_messages, sendable, split_message, Segment};
use masquerade::store::ProfileStore;
use masquerade::validate::PatternChecks;

fn store_with(names: &[&str]) -> ProfileStore {
    let mut store = ProfileStore::new();
    let checks = PatternChecks { name: true, display_name: true, colour: true };
    for n in names {
        assert!(store.save_profile("u1", Profile::new("u1", n), checks).is_ok());
    }
    store
}

fn pairs(segments: &[Segment]) -> Vec<(String, String)> {
    segments.iter().map(|s| (s.profile.name.clone(), s.text.clone())).collect()
}

#[test]
fn one_profile_with_two_lines() {
    let store = store_with(&["bob"]);
    let r = extract_masq_messages(&store, "u1", Some("bob;hello\nworld"), None);
    assert_eq!(pairs(&r), vec![("bob".to_string(), "hello\nworld".to_string())]);
}

#[test]
fn unknown_profile_is_plain_text() {
    let store = store_with(&["bob"]);
    assert!(extract_masq_messages(&store, "u1", Some("nobody;hello"), None).is_empty());
}

#[test]
fn two_profiles_in_order() {
    let store = store_with(&["bob", "alice"]);
    let r = extract_masq_messages(&store, "u1", Some("bob;hi\nalice;yo"), None);
    assert_eq!(
        pairs(&r),
        vec![("bob".to_string(), "hi".to_string()), ("alice".to_string(), "yo".to_string())]
    );
}

#[test]
fn first_line_decides() {
    let store = store_with(&["bob"]);
    assert!(split_message(&store, "u1", "hey\nbob;hi").is_empty());
}

#[test]
fn profiles_of_another_user_do_not_switch() {
    let store = store_with(&["bob"]);
    assert!(split_message(&store, "u2", "bob;hi").is_empty());
}

#[test]
fn leading_space_of_text_is_dropped() {
    let store = store_with(&["bob"]);
    let r = split_message(&store, "u1", "bob;  \u{3000}hi there;x");
    assert_eq!(pairs(&r), vec![("bob".to_string(), "hi there;x".to_string())]);
}

#[test]
fn unknown_switch_joins_the_open_segment() {
    let store = store_with(&["bob"]);
    let r = split_message(&store, "u1", "bob;a\nnobody;b\r\nc\n");
    assert_eq!(pairs(&r), vec![("bob".to_string(), "a\nnobody;b\nc".to_string())]);
}

#[test]
fn empty_and_missing_content() {
    let store = store_with(&["bob"]);
    assert!(extract_masq_messages(&store, "u1", None, None).is_empty());
    assert!(extract_masq_messages(&store, "u1", Some(""), None).is_empty());
    let r = split_message(&store, "u1", "bob;");
    assert_eq!(pairs(&r), vec![("bob".to_string(), String::new())]);
}

#[test]
fn at_most_ten_are_sent() {
    let store = store_with(&["bob"]);
    let text = vec!["bob;x"; 12].join("\n");
    let r = split_message(&store, "u1", &text);
    assert_eq!(r.len(), 12);
    assert_eq!(sendable(r).len(), 10);
    let r = split_message(&store, "u1", "bob;x\nbob;y");
    assert_eq!(sendable(r).len(), 2);
}

#[test]
fn only_first_segment_replies() {
    let store = store_with(&["bob", "alice"]);
    let replies = Some(vec!["m1".to_string(), "m2".to_string()]);
    let r = extract_masq_messages(&store, "u1", Some("bob;hi\nalice;yo"), replies.clone());
    assert_eq!(r.len(), 2);
    assert_eq!(r[0].replies, replies);
    assert_eq!(r[1].replies, None);
    let r = extract_masq_messages(&store, "u1", Some("plain"), replies);
    assert!(r.is_empty());
}
