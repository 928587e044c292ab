use masquerade::colours::{colour_words, combine_colours, parse_colours};
use masquerade::commands::{
    apply_edit, command_parts, create_profile, default_id, field_value, first_word, parse_command,
    split_args, strip_mention, Command, DefaultScope, EditCommand,
};
use masquerade::error::{Error, Permission};
use masquerade::gate::{check_profile, Capabilities};
use masquerade::import::{import_too_large, PluralKitExport, PluralKitMember};
use masquerade::models::Profile;
use masquerade::store::{DefaultProfileDocId, ProfileStore};
use masquerade::validate::{describe_errors, Field, FieldError, PatternChecks, Rule};

#[test]
fn colours_become_gradients() {
    assert_eq!(parse_colours("red blue"), "linear-gradient(to right,red,blue)");
    assert_eq!(parse_colours(" #ff0000\t00ff00  blue "), "linear-gradient(to right,#ff0000,00ff00,blue)");
    assert_eq!(parse_colours("  #ff0000  "), "#ff0000");
    assert_eq!(parse_colours("red bl-ue"), "red bl-ue");
    assert_eq!(parse_colours(""), "");
}

#[test]
fn command_words() {
    assert_eq!(parse_command("create"), Command::Create);
    assert_eq!(parse_command("n"), Command::Edit(EditCommand::Name));
    assert_eq!(parse_command("display"), Command::Edit(EditCommand::DisplayName));
    assert_eq!(parse_command("pfp"), Command::Edit(EditCommand::Avatar));
    assert_eq!(parse_command("color"), Command::Edit(EditCommand::Colour));
    assert_eq!(parse_command("delete"), Command::Delete);
    assert_eq!(parse_command("list"), Command::List);
    assert_eq!(parse_command("author"), Command::Author);
    assert_eq!(parse_command("sdefault"), Command::Default(DefaultScope::Server));
    assert_eq!(parse_command("channel_default"), Command::Default(DefaultScope::Channel));
    assert_eq!(parse_command("default"), Command::Default(DefaultScope::Global));
    assert_eq!(parse_command("Create"), Command::Help);
}

#[test]
fn request_is_split_after_the_mention() {
    assert_eq!(strip_mention("<@B>  create bob  ", "<@B>").as_deref(), Some("create bob"));
    assert_eq!(strip_mention("hi <@B>", "<@B>"), None);
    assert_eq!(strip_mention("<@", "<@B>"), None);
    assert_eq!(command_parts("create  bob Bobby"), ("create".to_string(), "bob Bobby".to_string()));
    assert_eq!(command_parts("list"), ("list".to_string(), String::new()));
}

#[test]
fn arguments_split_at_first_space() {
    assert_eq!(split_args("bob Bobby Smith"), ("bob".to_string(), Some("Bobby Smith".to_string())));
    assert_eq!(split_args("bob"), ("bob".to_string(), None));
    assert_eq!(split_args("bob "), ("bob".to_string(), Some(String::new())));
    assert_eq!(first_word("  bob x").as_deref(), Some("bob"));
    assert_eq!(first_word("   "), None);
}

#[test]
fn create_takes_name_and_display_name() {
    let p = create_profile("u1", "bob Bobby B", Some("https://a/b.png".to_string()));
    assert_eq!(p.user_id, "u1");
    assert_eq!(p.name, "bob");
    assert_eq!(p.display_name.as_deref(), Some("Bobby B"));
    assert_eq!(p.avatar.as_deref(), Some("https://a/b.png"));
    assert_eq!(p.colour, None);
}

#[test]
fn edits_set_and_clear_fields() {
    let p = Profile::new("u1", "bob");
    let q = apply_edit(p.clone(), EditCommand::Colour, "red blue", "bob");
    assert_eq!(q.colour.as_deref(), Some("linear-gradient(to right,red,blue)"));
    let q = apply_edit(q, EditCommand::Colour, "clear", "bob");
    assert_eq!(q.colour, None);
    let q = apply_edit(p.clone(), EditCommand::Name, "robert", "bob");
    assert_eq!(q.name, "robert");
    let q = apply_edit(q, EditCommand::Name, "clear", "bob");
    assert_eq!(q.name, "bob");
    let q = apply_edit(p.clone(), EditCommand::DisplayName, "Bobby", "bob");
    assert_eq!(field_value(&q, EditCommand::DisplayName).as_deref(), Some("Bobby"));
    assert_eq!(field_value(&q, EditCommand::Name).as_deref(), Some("bob"));
    assert_eq!(field_value(&q, EditCommand::Avatar), None);
    let q = apply_edit(q, EditCommand::Avatar, "https://a/b.png", "bob");
    assert_eq!(q.avatar.as_deref(), Some("https://a/b.png"));
}

#[test]
fn default_keys_from_scope() {
    assert!(default_id(DefaultScope::Server, "u1", None, "c1").is_none());
    assert!(matches!(
        default_id(DefaultScope::Server, "u1", Some("s1"), "c1"),
        Some(DefaultProfileDocId::Server { user_id, server_id }) if user_id == "u1" && server_id == "s1"
    ));
    assert!(matches!(
        default_id(DefaultScope::Channel, "u1", Some("s1"), "c1"),
        Some(DefaultProfileDocId::Channel { channel_id, .. }) if channel_id == "c1"
    ));
    assert!(matches!(default_id(DefaultScope::Global, "u1", None, "c1"), Some(DefaultProfileDocId::Global { .. })));
}

#[test]
fn permission_gate() {
    let yes = Capabilities { masquerade: true, manage_role: true };
    let no_colour = Capabilities { masquerade: true, manage_role: false };
    let none = Capabilities { masquerade: false, manage_role: false };
    let mut p = Profile::new("u1", "bob");
    p.colour = Some("red".to_string());
    let mut q = p.clone();
    assert!(matches!(check_profile(none, yes, &mut q), Err(Error::BotMissing(Permission::Masquerade))));
    assert_eq!(q.colour.as_deref(), Some("red"));
    let mut q = p.clone();
    assert!(check_profile(no_colour, yes, &mut q).is_ok());
    assert_eq!(q.colour, None);
    let mut q = p.clone();
    assert!(matches!(check_profile(yes, none, &mut q), Err(Error::UserMissing(Permission::Masquerade))));
    let mut q = p.clone();
    assert!(check_profile(yes, yes, &mut q).is_ok());
    assert_eq!(q.colour.as_deref(), Some("red"));
}

#[test]
fn shown_name_prefers_display_name() {
    let mut p = Profile::new("u1", "bob");
    assert_eq!(p.shown_name(), "bob");
    p.display_name = Some("Bobby".to_string());
    assert_eq!(p.shown_name(), "Bobby");
}

fn member(name: &str, color: Option<&str>) -> PluralKitMember {
    PluralKitMember {
        name: name.to_string(),
        display_name: None,
        avatar_url: None,
        color: color.map(|c| c.to_string()),
    }
}

#[test]
fn members_become_profiles() {
    let export = PluralKitExport { members: vec![member("bob", Some("ff0000")), member("amy", None)] };
    let list = export.to_profiles("u1");
    assert_eq!(list.len(), 2);
    assert_eq!(list[0].colour.as_deref(), Some("#ff0000"));
    assert_eq!(list[0].user_id, "u1");
    assert_eq!(list[1].name, "amy");
    assert_eq!(list[1].colour, None);
    assert!(import_too_large(262145));
    assert!(!import_too_large(262144));
}

#[test]
fn import_with_one_invalid_member_writes_nothing() {
    let export = PluralKitExport { members: vec![member("bob", None), member("", None), member("amy", None)] };
    let list = export.to_profiles("u1");
    let checks = vec![PatternChecks { name: true, display_name: true, colour: true }; 3];
    let mut store = ProfileStore::new();
    match store.import_profiles("u1", list, checks) {
        Err(Error::Validate(v)) => assert_eq!(v, vec![FieldError { field: Field::Name, rule: Rule::Empty }]),
        _ => panic!("expected a validation error"),
    }
    assert!(store.get_profiles("u1").is_empty());
}

#[test]
fn import_saves_every_member() {
    let export = PluralKitExport { members: vec![member("bob", None), member("amy", Some("00ff00")), member("bob", Some("abcdef"))] };
    let list = export.to_profiles("u1");
    let checks = vec![PatternChecks { name: true, display_name: true, colour: true }; 3];
    let mut store = ProfileStore::new();
    assert_eq!(store.import_profiles("u1", list, checks).ok(), Some(3));
    let names: Vec<String> = store.get_profiles("u1").into_iter().map(|p| p.name).collect();
    assert_eq!(names, vec!["amy", "bob"]);
    assert_eq!(store.get_profile("u1", "bob").unwrap().colour.as_deref(), Some("#abcdef"));
}

#[test]
fn error_report_names_field_and_rule() {
    let errors = vec![
        FieldError { field: Field::Name, rule: Rule::Empty },
        FieldError { field: Field::Colour, rule: Rule::TooLong },
        FieldError { field: Field::Avatar, rule: Rule::InvalidUrl },
    ];
    assert_eq!(
        describe_errors(&errors),
        "name cannot be empty\ncolour must be <= 128 characters\navatar isn't a valid url\n"
    );
}

#[test]
fn colour_words_combine_by_given_matches() {
    let words = colour_words("  red  blue ");
    assert_eq!(words, vec!["red".to_string(), "blue".to_string()]);
    assert_eq!(combine_colours("  red  blue ", &vec![true, true]), "linear-gradient(to right,red,blue)");
    assert_eq!(combine_colours("  red  blue ", &vec![true, false]), "red  blue");
    assert_eq!(combine_colours(" red ", &vec![true]), "red");
}

#[test]
fn export_checks_every_member() {
    let export = PluralKitExport { members: vec![member("bob", Some("ff0000")), member("", None), member("a".repeat(33).as_str(), None)] };
    let ok = PatternChecks { name: true, display_name: true, colour: true };
    match export.into_profiles("u1", &vec![ok; 3]) {
        Err(e) => assert_eq!(e, vec![FieldError { field: Field::Name, rule: Rule::Empty }]),
        Ok(_) => panic!("expected the first member's errors"),
    }
    let bad_colour = PatternChecks { name: true, display_name: true, colour: false };
    match export.into_profiles("u1", &vec![bad_colour, ok, ok]) {
        Err(e) => assert_eq!(e, vec![FieldError { field: Field::Colour, rule: Rule::Unsupported }]),
        Ok(_) => panic!("expected the first member's errors"),
    }
    let fine = PluralKitExport { members: vec![member("bob", Some("ff0000")), member("amy", None)] };
    let list = fine.into_profiles("u1", &vec![ok; 2]).unwrap();
    assert_eq!(list.len(), 2);
    assert_eq!(list[0].colour.as_deref(), Some("#ff0000"));
    assert_eq!(list[1].name, "amy");
}

#[test]
fn import_stops_at_the_limit() {
    let ok = PatternChecks { name: true, display_name: true, colour: true };
    let mut store = ProfileStore::new();
    for i in 0..255 {
        assert!(store.save_profile("u1", Profile::new("u1", &format!("k{i}")), ok).is_ok());
    }
    let batch = vec![Profile::new("u1", "k3"), Profile::new("u1", "new1"), Profile::new("u1", "new2")];
    let r = store.import_profiles("u1", batch, vec![ok; 3]);
    assert!(matches!(r, Err(Error::UserMaxProfiles(256))));
    assert!(store.get_profile("u1", "new1").is_some());
    assert!(store.get_profile("u1", "new2").is_none());
    assert_eq!(store.get_profiles("u1").len(), 256);
}

#[test]
fn import_keeps_profiles_it_does_not_name() {
    let ok = PatternChecks { name: true, display_name: true, colour: true };
    let mut store = ProfileStore::new();
    assert!(store.save_profile("u1", Profile::new("u1", "old"), ok).is_ok());
    let r = store.import_profiles("u1", vec![Profile::new("u1", "new")], vec![ok]);
    assert_eq!(r.ok(), Some(1));
    let names: Vec<String> = store.get_profiles("u1").into_iter().map(|p| p.name).collect();
    assert_eq!(names, vec!["new", "old"]);
}
