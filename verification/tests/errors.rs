use authors::email;
use authors::parse_author;
use authors::parse_authors;

#[test]
fn empty_input_fails() {
    let err = parse_author("").unwrap_err();
    assert_eq!("expected at least one name character", err.message());
    assert_eq!((0, 0), err.span());
    assert_eq!("", err.input());
    assert!(parse_authors("").is_err());
}

#[test]
fn whitespace_only_name_fails() {
    let err = parse_author("   ").unwrap_err();
    assert_eq!("expected at least one name character", err.message());
    assert_eq!((0, 1), err.span());
    assert!(parse_authors(" \t ").is_err());
    assert!(parse_authors("[  ]").is_err());
}

#[test]
fn empty_email_body_fails() {
    let err = parse_author("Foo Bar <>").unwrap_err();
    assert_eq!("expected at least one email character", err.message());
    assert_eq!((9, 10), err.span());
    assert_eq!("Foo Bar <>", err.input());
}

#[test]
fn unterminated_email_fails() {
    let err = parse_author("Foo Bar <foo@bar").unwrap_err();
    assert_eq!("expected `>`", err.message());
    // The span points past the `<`, which stands at offset 8.
    assert!(err.span().0 > 8);
    assert_eq!((16, 16), err.span());
}

#[test]
fn missing_email_open_fails() {
    let err = email("foo@bar.com>", 0).unwrap_err();
    assert_eq!(0, err.pos);
    assert_eq!(authors::Reason::MissingEmailOpen, err.why);
}

#[test]
fn trailing_input_fails() {
    let err = parse_author("Foo] rest").unwrap_err();
    assert_eq!("expected end of input", err.message());
    assert_eq!((3, 4), err.span());
    let err = parse_authors("a, b] rest").unwrap_err();
    assert_eq!("expected end of input", err.message());
    assert_eq!((5, 6), err.span());
}

#[test]
fn comma_with_nothing_after_fails() {
    assert!(parse_authors("a, ").is_err());
    assert!(parse_authors(",a").is_err());
}

#[test]
fn errors_compare_structurally() {
    let left = parse_author("Foo <>").unwrap_err();
    let right = parse_author("Foo <>").unwrap_err();
    assert_eq!(left, right);
}

#[test]
fn render_annotates_the_span() {
    let err = parse_author("Foo Bar <").unwrap_err();
    let rendered = err.render();
    assert!(rendered.contains("expected at least one email character"));
    assert!(rendered.contains("Foo Bar <"));
    assert_ne!(rendered, err.input());
    assert_ne!(rendered, err.message());
    assert!(rendered.len() > err.input().len());
}

#[test]
fn render_marks_non_ascii_input() {
    let err = parse_author("Ü <").unwrap_err();
    let rendered = err.render();
    assert!(rendered.contains("expected at least one email character"));
    assert!(rendered.contains("Ü <"));
    assert!(rendered.contains('^'));
}

#[test]
fn render_is_deterministic() {
    let first = parse_authors("x, ]").unwrap_err().render();
    let second = parse_authors("x, ]").unwrap_err().render();
    assert_eq!(first, second);
}

#[test]
fn whitespace_name_before_email_fails() {
    assert!(parse_author("   <a@b>").is_err());
    assert!(parse_author("\"  \"").is_err());
}
