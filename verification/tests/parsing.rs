use authors::Author;
use authors::author;
use authors::email;
use authors::parse_author;
use authors::parse_authors;

fn single(name: &str, email: Option<&str>) -> Author {
    Author::new(String::from(name), email.map(String::from))
}

#[test]
fn test_parse_email() {
    let expected = String::from("firstlast@foo.com");
    let actual = email("<firstlast@foo.com>", 0);
    let (value, end) = actual.unwrap();
    assert_eq!(expected, value);
    assert_eq!(19, end);
}

#[test]
fn test_parse_author() {
    let expected = Author::new(
        String::from("First Last"),
        Some(String::from("firstlast@foo.com")),
    );
    let actual = author("First Last <firstlast@foo.com>", 0);
    let (value, end) = actual.unwrap();
    assert_eq!(expected, value);
    assert_eq!(30, end);
}

fn assert_single_list(input: &str, name: &str, email: Option<&str>) {
    let parsed = parse_authors(input).unwrap();
    assert_eq!(1, parsed.len());
    assert!(!parsed.is_empty());
    assert_eq!(&single(name, email), parsed.get(0));
}

#[test]
fn test_single_authors() {
    assert_single_list("Foo Bar <foo@bar.com>", "Foo Bar", Some("foo@bar.com"));
    assert_single_list("[Foo Bar <foo@bar.com>]", "Foo Bar", Some("foo@bar.com"));
    assert_single_list("\"Foo Bar <foo@bar.com>\"", "Foo Bar", Some("foo@bar.com"));
    assert_single_list("[\"Foo Bar <foo@bar.com>\"]", "Foo Bar", Some("foo@bar.com"));
    assert_single_list("Foo Bar", "Foo Bar", None);
    assert_single_list("[Foo Bar]", "Foo Bar", None);
    assert_single_list("\"Foo Bar\"", "Foo Bar", None);
    assert_single_list("[\"Foo Bar\"]", "Foo Bar", None);
}

#[test]
fn test_multiple_authors() {
    let inputs = [
        "[\"Foo Bar <foo@bar.com>\", \"Foo2 Bar <foo2@bar.com>\", \"Foo3 Bar <foo3@bar.com>\"]",
        "[Foo Bar <foo@bar.com>, Foo2 Bar <foo2@bar.com>, Foo3 Bar <foo3@bar.com>]",
    ];
    for input in inputs {
        let parsed = parse_authors(input).unwrap();
        assert_eq!(3, parsed.len());
        assert_eq!(&single("Foo Bar", Some("foo@bar.com")), parsed.get(0));
        assert_eq!(&single("Foo2 Bar", Some("foo2@bar.com")), parsed.get(1));
        assert_eq!(&single("Foo3 Bar", Some("foo3@bar.com")), parsed.get(2));
    }
}

#[test]
fn test_author() {
    let with_email = single("Foo Bar", Some("foo@bar.com"));
    let plain = single("Foo Bar", None);
    assert_eq!(Ok(with_email.clone()), parse_author("Foo Bar <foo@bar.com>"));
    assert_eq!(Ok(with_email), parse_author("\"Foo Bar <foo@bar.com>\""));
    assert_eq!(Ok(plain.clone()), parse_author("Foo Bar"));
    assert_eq!(Ok(plain), parse_author("\"Foo Bar\""));
}

#[test]
fn name_is_trimmed() {
    let parsed = parse_author("   Foo Bar\t").unwrap();
    assert_eq!("Foo Bar", parsed.name());
    assert_eq!(None, parsed.email());
}

#[test]
fn list_order_is_left_to_right() {
    let parsed = parse_authors("a ,b,  c <c@d>").unwrap();
    assert_eq!(3, parsed.len());
    assert_eq!("a", parsed.get(0).name());
    assert_eq!("b", parsed.get(1).name());
    assert_eq!("c", parsed.get(2).name());
    assert_eq!(Some(&String::from("c@d")), parsed.get(2).email());
}

#[test]
fn email_only_between_delimiters() {
    let parsed = parse_author("N < spaced@example >").unwrap();
    assert_eq!("N", parsed.name());
    assert_eq!(Some(&String::from(" spaced@example ")), parsed.email());
}

#[test]
fn non_ascii_names_parse() {
    let parsed = parse_author("Ümläut Authör <ü@example.com>").unwrap();
    assert_eq!("Ümläut Authör", parsed.name());
    assert_eq!(Some(&String::from("ü@example.com")), parsed.email());
}

#[test]
fn render_roundtrip() {
    let a = single("Foo Bar", Some("foo@bar.com"));
    assert_eq!("Foo Bar <foo@bar.com>", a.render());
    assert_eq!(Ok(a), parse_author("Foo Bar <foo@bar.com>"));
    let b = single("Solo", None);
    assert_eq!("Solo", b.render());
    assert_eq!(Ok(b.clone()), parse_author(&b.render()));
}

#[test]
fn authors_element_replacement() {
    let mut parsed = parse_authors("a, b").unwrap();
    parsed.set(1, single("z", Some("z@z")));
    assert_eq!(2, parsed.len());
    assert_eq!("a", parsed.get(0).name());
    assert_eq!("z", parsed.get(1).name());
}

#[test]
fn name_rule_trims_and_stops_at_delimiters() {
    let (value, end) = authors::name("  Foo Bar  <x>", 0).unwrap();
    assert_eq!("Foo Bar", value);
    assert_eq!(11, end);
    assert!(authors::name("<x>", 0).is_err());
}

#[test]
fn separator_rule_skips_blanks_around_comma() {
    assert_eq!(Some(5), authors::separator("a \t, b", 1));
    assert_eq!(Some(6), authors::separator("a \t,  b", 1));
    assert_eq!(None, authors::separator("a b", 1));
}

#[test]
fn authors_rule_reports_end_position() {
    let (list, end) = authors::authors("[a, b] tail", 0).unwrap();
    assert_eq!(2, list.len());
    assert_eq!(6, end);
}

#[test]
fn bracketed_pair_in_order() {
    let parsed = parse_authors("[Foo Bar <foo@bar.com>, Foo2 Bar <foo2@bar.com>]").unwrap();
    assert_eq!(2, parsed.len());
    assert_eq!(&single("Foo Bar", Some("foo@bar.com")), parsed.get(0));
    assert_eq!(&single("Foo2 Bar", Some("foo2@bar.com")), parsed.get(1));
}
