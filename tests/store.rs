use masquerade::error::Error;
use masquerade::models::Profile;
use masquerade::store::{DefaultProfileDocId, ProfileStore, MAX_PROFILES};
use masquerade::validate::{Field, FieldError, PatternChecks, Rule};

fn ok_checks() -> PatternChecks {
    PatternChecks { name: true, display_name: true, colour: true }
}

fn profile(user: &str, name: &str) -> Profile {
    Profile::new(user, name)
}

fn names(list: &[Profile]) -> Vec<String> {
    list.iter().map(|p| p.name.clone()).collect()
}

#[test]
fn saved_profile_reads_back() {
    let mut store = ProfileStore::new();
    let mut p = profile("u1", "bob");
    p.display_name = Some("Bobby".to_string());
    p.avatar = Some("https://example.com/bob.png".to_string());
    p.colour = Some("red".to_string());
    assert!(store.save_profile("u1", p.clone(), ok_checks()).is_ok());
    let got = store.get_profile("u1", "bob").unwrap();
    assert_eq!(got.user_id, "u1");
    assert_eq!(got.name, "bob");
    assert_eq!(got.display_name.as_deref(), Some("Bobby"));
    assert_eq!(got.avatar.as_deref(), Some("https://example.com/bob.png"));
    assert_eq!(got.colour.as_deref(), Some("red"));
    assert!(store.get_profile("u2", "bob").is_none());
    assert!(store.get_profile("u1", "bobby").is_none());
}

#[test]
fn second_write_replaces_first() {
    let mut store = ProfileStore::new();
    assert!(store.save_profile("u1", profile("u1", "bob"), ok_checks()).is_ok());
    let mut p = profile("u1", "bob");
    p.display_name = Some("New".to_string());
    assert!(store.save_profile("u1", p, ok_checks()).is_ok());
    assert_eq!(store.get_profiles("u1").len(), 1);
    assert_eq!(store.get_profile("u1", "bob").unwrap().display_name.as_deref(), Some("New"));
}

#[test]
fn delete_missing_profile_is_not_found() {
    let mut store = ProfileStore::new();
    assert!(store.delete_profile("u1", "ghost").is_none());
    assert!(store.save_profile("u1", profile("u1", "bob"), ok_checks()).is_ok());
    assert!(store.delete_profile("u1", "ghost").is_none());
    assert_eq!(names(&store.get_profiles("u1")), vec!["bob"]);
}

#[test]
fn delete_removes_from_listing_and_lookup() {
    let mut store = ProfileStore::new();
    assert!(store.save_profile("u1", profile("u1", "alice"), ok_checks()).is_ok());
    assert!(store.save_profile("u1", profile("u1", "bob"), ok_checks()).is_ok());
    let gone = store.delete_profile("u1", "bob").unwrap();
    assert_eq!(gone.name, "bob");
    assert!(store.get_profile("u1", "bob").is_none());
    assert_eq!(names(&store.get_profiles("u1")), vec!["alice"]);
    assert!(store.delete_profile("u1", "alice").is_some());
    assert!(store.get_profiles("u1").is_empty());
}

#[test]
fn listing_is_sorted_whatever_the_insertion_order() {
    let mut store = ProfileStore::new();
    for n in ["charlie", "alice", "Zed", "bob", "alice2", "b"] {
        assert!(store.save_profile("u1", profile("u1", n), ok_checks()).is_ok());
    }
    assert_eq!(names(&store.get_profiles("u1")), vec!["Zed", "alice", "alice2", "b", "bob", "charlie"]);
    assert!(store.get_profiles("nobody").is_empty());
}

#[test]
fn profiles_of_users_are_apart() {
    let mut store = ProfileStore::new();
    assert!(store.save_profile("u1", profile("u1", "bob"), ok_checks()).is_ok());
    assert!(store.save_profile("u2", profile("u2", "amy"), ok_checks()).is_ok());
    assert_eq!(names(&store.get_profiles("u1")), vec!["bob"]);
    assert_eq!(names(&store.get_profiles("u2")), vec!["amy"]);
}

#[test]
fn capacity_refuses_new_name_but_not_edit() {
    let mut store = ProfileStore::new();
    for i in 0..MAX_PROFILES {
        let name = format!("m{i}");
        assert!(store.save_profile("u1", profile("u1", &name), ok_checks()).is_ok());
    }
    assert_eq!(store.get_profiles("u1").len(), 256);
    let r = store.save_profile("u1", profile("u1", "extra"), ok_checks());
    assert!(matches!(r, Err(Error::UserMaxProfiles(256))));
    assert!(store.get_profile("u1", "extra").is_none());
    let mut edit = profile("u1", "m7");
    edit.display_name = Some("Seven".to_string());
    assert!(store.save_profile("u1", edit, ok_checks()).is_ok());
    assert_eq!(store.get_profiles("u1").len(), 256);
    assert!(store.save_profile("u2", profile("u2", "extra"), ok_checks()).is_ok());
}

#[test]
fn invalid_profile_is_refused_with_every_rule() {
    let mut store = ProfileStore::new();
    let mut p = profile("u1", "");
    p.avatar = Some("not a url".to_string());
    p.colour = Some("x".repeat(129));
    let checks = PatternChecks { name: false, display_name: true, colour: true };
    match store.save_profile("u1", p, checks) {
        Err(Error::Validate(v)) => assert_eq!(
            v,
            vec![
                FieldError { field: Field::Name, rule: Rule::Empty },
                FieldError { field: Field::Name, rule: Rule::InvalidCharacters },
                FieldError { field: Field::Avatar, rule: Rule::InvalidUrl },
                FieldError { field: Field::Colour, rule: Rule::TooLong },
            ]
        ),
        _ => panic!("expected a validation error"),
    }
    assert!(store.get_profiles("u1").is_empty());
}

#[test]
fn long_name_is_too_long() {
    let mut store = ProfileStore::new();
    let name = "a".repeat(33);
    match store.save_profile("u1", profile("u1", &name), ok_checks()) {
        Err(Error::Validate(v)) => assert_eq!(v, vec![FieldError { field: Field::Name, rule: Rule::TooLong }]),
        _ => panic!("expected a validation error"),
    }
    let name = "é".repeat(32);
    assert!(store.save_profile("u1", profile("u1", &name), ok_checks()).is_ok());
}

#[test]
fn unsupported_colour_and_display_name() {
    let mut store = ProfileStore::new();
    let mut p = profile("u1", "bob");
    p.display_name = Some(String::new());
    p.colour = Some("blue".to_string());
    let checks = PatternChecks { name: true, display_name: true, colour: false };
    match store.save_profile("u1", p, checks) {
        Err(Error::Validate(v)) => assert_eq!(
            v,
            vec![
                FieldError { field: Field::DisplayName, rule: Rule::Empty },
                FieldError { field: Field::Colour, rule: Rule::Unsupported },
            ]
        ),
        _ => panic!("expected a validation error"),
    }
}

fn channel(u: &str, c: &str) -> DefaultProfileDocId {
    DefaultProfileDocId::Channel { user_id: u.to_string(), channel_id: c.to_string() }
}

fn server(u: &str, s: &str) -> DefaultProfileDocId {
    DefaultProfileDocId::Server { user_id: u.to_string(), server_id: s.to_string() }
}

fn global(u: &str) -> DefaultProfileDocId {
    DefaultProfileDocId::Global { user_id: u.to_string() }
}

fn default_name(store: &ProfileStore) -> Option<String> {
    store.get_default("u1", Some("s1"), "c1").map(|p| p.name)
}

#[test]
fn default_precedence_falls_back_scope_by_scope() {
    let mut store = ProfileStore::new();
    for n in ["chan", "serv", "glob"] {
        assert!(store.save_profile("u1", profile("u1", n), ok_checks()).is_ok());
    }
    assert!(store.set_default(channel("u1", "c1"), Some("chan")).is_ok());
    assert!(store.set_default(server("u1", "s1"), Some("serv")).is_ok());
    assert!(store.set_default(global("u1"), Some("glob")).is_ok());
    assert_eq!(default_name(&store).as_deref(), Some("chan"));
    assert!(store.set_default(channel("u1", "c1"), None).is_ok());
    assert_eq!(default_name(&store).as_deref(), Some("serv"));
    assert!(store.set_default(server("u1", "s1"), None).is_ok());
    assert_eq!(default_name(&store).as_deref(), Some("glob"));
    assert!(store.set_default(global("u1"), None).is_ok());
    assert_eq!(default_name(&store), None);
}

#[test]
fn server_default_needs_a_server() {
    let mut store = ProfileStore::new();
    assert!(store.save_profile("u1", profile("u1", "serv"), ok_checks()).is_ok());
    assert!(store.save_profile("u1", profile("u1", "glob"), ok_checks()).is_ok());
    assert!(store.set_default(server("u1", "s1"), Some("serv")).is_ok());
    assert!(store.set_default(global("u1"), Some("glob")).is_ok());
    assert_eq!(store.get_default("u1", None, "c1").map(|p| p.name).as_deref(), Some("glob"));
    assert_eq!(store.get_default("u1", Some("s2"), "c1").map(|p| p.name).as_deref(), Some("glob"));
    assert_eq!(store.get_default("u1", Some("s1"), "c9").map(|p| p.name).as_deref(), Some("serv"));
}

#[test]
fn default_to_deleted_profile_resolves_to_none() {
    let mut store = ProfileStore::new();
    assert!(store.save_profile("u1", profile("u1", "chan"), ok_checks()).is_ok());
    assert!(store.save_profile("u1", profile("u1", "glob"), ok_checks()).is_ok());
    assert!(store.set_default(channel("u1", "c1"), Some("chan")).is_ok());
    assert!(store.set_default(global("u1"), Some("glob")).is_ok());
    assert!(store.delete_profile("u1", "chan").is_some());
    assert_eq!(default_name(&store), None);
    assert_eq!(store.get_default("u1", Some("s1"), "c2").map(|p| p.name).as_deref(), Some("glob"));
}

#[test]
fn default_to_missing_profile_is_refused() {
    let mut store = ProfileStore::new();
    assert!(matches!(store.set_default(global("u1"), Some("ghost")), Err(Error::ProfileNotFound)));
    assert!(store.set_default(global("u1"), None).is_ok());
    assert_eq!(store.get_default("u1", None, "c1").map(|p| p.name), None);
}

#[test]
fn restored_records_enter_the_mirror() {
    let mut store = ProfileStore::new();
    store.restore_profile("u1", profile("u1", "bob"));
    store.restore_default(global("u1"), "bob".to_string());
    assert_eq!(store.get_default("u1", None, "c1").map(|p| p.name).as_deref(), Some("bob"));
}

#[test]
fn check_save_matches_save() {
    let store = ProfileStore::new();
    assert!(store.check_save("u1", &profile("u1", "bob"), ok_checks()).is_ok());
    assert!(matches!(store.check_save("u1", &profile("u1", ""), ok_checks()), Err(Error::Validate(_))));
}

#[test]
fn default_keys_compare_by_scope_and_ids() {
    assert!(global("u1").same_key(&global("u1")));
    assert!(!global("u1").same_key(&global("u2")));
    assert!(!channel("u1", "x").same_key(&server("u1", "x")));
    assert_eq!(server("u1", "s").user_id(), "u1");
}

#[test]
fn default_name_reads_the_assignment() {
    let mut store = ProfileStore::new();
    let checks = PatternChecks { name: true, display_name: true, colour: true };
    assert!(store.save_profile("u1", Profile::new("u1", "bob"), checks).is_ok());
    assert_eq!(store.default_name(&global("u1")), None);
    assert!(store.set_default(global("u1"), Some("bob")).is_ok());
    assert_eq!(store.default_name(&global("u1")).as_deref(), Some("bob"));
    assert_eq!(store.default_name(&channel("u1", "c1")), None);
}
