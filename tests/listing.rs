use masquerade::listing::{
    get_data, get_page, is_listing, last_page, on_listing_react, page_count, parse_usize,
    render_page, tag_value, turn_listing, turn_of, turn_page, Turn, NEXT, PREVIOUS,
};
use masquerade::models::Profile;

const HEAD: &str = "\n| Name | Display Name | Avatar | Colour |\n|-|-|-|-|";

fn profiles(n: usize) -> Vec<Profile> {
    (0..n).map(|i| Profile::new("u1", &format!("m{i:02}"))).collect()
}

#[test]
fn twelve_profiles_fill_three_pages() {
    assert_eq!(page_count(12), 3);
    assert_eq!(last_page(12), 2);
    assert_eq!(page_count(0), 1);
    assert_eq!(page_count(5), 1);
    assert_eq!(page_count(6), 2);
}

#[test]
fn turning_wraps_around() {
    assert_eq!(turn_page(0, 2, Turn::Previous), 2);
    assert_eq!(turn_page(2, 2, Turn::Next), 0);
    assert_eq!(turn_page(1, 2, Turn::Next), 2);
    assert_eq!(turn_page(1, 2, Turn::Previous), 0);
    assert_eq!(turn_page(7, 2, Turn::Next), 0);
}

#[test]
fn page_text_has_tags_head_and_rows() {
    let list = profiles(12);
    let page = get_page(&list, 2);
    let mut want = format!("[](T:L)[](P:2)3/3{HEAD}");
    for n in ["m10", "m11"] {
        want.push_str(&format!("\n|{n}||||"));
    }
    assert_eq!(page, want);
    assert_eq!(get_page(&list, 0).matches("\n|m").count(), 5);
    assert_eq!(get_page(&list, 9), format!("[](T:L)[](P:9)10/3{HEAD}"));
    assert_eq!(get_page(&[], 0), format!("[](T:L)[](P:0)1/1{HEAD}"));
}

#[test]
fn rows_show_every_field() {
    let mut p = Profile::new("u1", "bob");
    p.display_name = Some("Bobby".to_string());
    p.avatar = Some("https://x.y/a.png".to_string());
    p.colour = Some("#FF00aa".to_string());
    let mut q = Profile::new("u1", "amy");
    q.colour = Some("linear-gradient(to right,red,blue)".to_string());
    let page = get_page(&[p, q], 0);
    let want = format!(
        "[](T:L)[](P:0)1/1{HEAD}\n|$\\color{{#FF00aa}}\\textsf{{bob}}$|Bobby|[Link](<https://x.y/a.png>)|#FF00aa|\n|amy|||linear-gradient(to right,red,blue)|"
    );
    assert_eq!(page, want);
}

#[test]
fn tags_decode_in_order() {
    let data = get_data("[](T:L)[](P:12)3/3 [](X:y)");
    let got: Vec<(String, String)> = data.clone();
    assert_eq!(got, vec![("T".to_string(), "L".to_string()), ("P".to_string(), "12".to_string())]);
    assert_eq!(tag_value(&data, "P").as_deref(), Some("12"));
    assert_eq!(tag_value(&data, "Q"), None);
    assert!(get_data("hello [](T:L)").is_empty());
    assert!(get_data("[](TL)").is_empty());
    assert_eq!(get_data("[](a:b:c)[](a:d)"), vec![("a".to_string(), "b:c".to_string()), ("a".to_string(), "d".to_string())]);
    assert_eq!(tag_value(&get_data("[](a:b)[](a:d)"), "a").as_deref(), Some("d"));
}

#[test]
fn rendered_page_reads_back() {
    let list = profiles(12);
    for page in 0..3 {
        let text = get_page(&list, page);
        assert!(is_listing(&text));
        let data = get_data(&text);
        assert_eq!(tag_value(&data, "P"), Some(page.to_string()));
    }
    assert!(!is_listing("[](T:X)"));
    assert!(!is_listing("plain"));
}

#[test]
fn numbers_read_as_from_str() {
    let p = |s: &str| parse_usize(&s.chars().collect::<Vec<char>>());
    assert_eq!(p("0"), Some(0));
    assert_eq!(p("+17"), Some(17));
    assert_eq!(p("18446744073709551615"), Some(usize::MAX));
    assert_eq!(p("18446744073709551616"), None);
    assert_eq!(p(""), None);
    assert_eq!(p("+"), None);
    assert_eq!(p("-1"), None);
    assert_eq!(p("1a"), None);
}

#[test]
fn reaction_turns_the_page() {
    let list = profiles(12);
    let first = get_page(&list, 0);
    assert_eq!(on_listing_react(&list, &first, Turn::Previous), Some(get_page(&list, 2)));
    assert_eq!(on_listing_react(&list, &first, Turn::Next), Some(get_page(&list, 1)));
    let last = get_page(&list, 2);
    assert_eq!(on_listing_react(&list, &last, Turn::Next), Some(first.clone()));
}

#[test]
fn same_page_is_not_edited_again() {
    let list = profiles(3);
    let only = get_page(&list, 0);
    assert_eq!(on_listing_react(&list, &only, Turn::Next), None);
    assert_eq!(on_listing_react(&list, &only, Turn::Previous), None);
    let more = profiles(4);
    assert_eq!(on_listing_react(&more, &only, Turn::Next), Some(get_page(&more, 0)));
}

#[test]
fn paint_flags_decide_painting() {
    let mut p = Profile::new("u1", "bob");
    p.colour = Some("weird colour".to_string());
    let list = vec![p];
    let painted = render_page(&list, 0, &vec![true]);
    assert!(painted.ends_with("\n|$\\color{weird colour}\\textsf{bob}$|||weird colour|"));
    let plain = render_page(&list, 0, &vec![false]);
    assert!(plain.ends_with("\n|bob|||weird colour|"));
    assert_eq!(plain, get_page(&list, 0));
    assert_eq!(turn_listing(&list, &vec![true], &plain, Turn::Next), Some(painted));
}

#[test]
fn arrows_turn_pages() {
    assert_eq!(turn_of(PREVIOUS), Some(Turn::Previous));
    assert_eq!(turn_of(NEXT), Some(Turn::Next));
    assert_eq!(turn_of("\u{1F448}"), Some(Turn::Previous));
    assert_eq!(turn_of("x"), None);
}
