use figlet_rs::{FontError, HeaderField, HeaderLine};

#[test]
fn test_new_headerline() {
    let line = "flf2a$ 6 5 20 15 3 0 143 229";
    let headerline = HeaderLine::new(line);
    assert!(headerline.is_ok());
    let headerline = headerline.unwrap();

    assert_eq!(line, headerline.header_line);
    assert_eq!("flf2a", headerline.signature);
    assert_eq!('$', headerline.hardblank);
    assert_eq!(6, headerline.height);
    assert_eq!(5, headerline.baseline);
    assert_eq!(20, headerline.max_length);
    assert_eq!(15, headerline.old_layout);
    assert_eq!(3, headerline.comment_lines);
    assert_eq!(Some(0), headerline.print_direction);
    assert_eq!(Some(143), headerline.full_layout);
    assert_eq!(Some(229), headerline.codetag_count);
}

#[test]
fn new_header_line() {
    let line = "flf2a$ 6 5 20 15 3 0 143 229";
    let headerline = HeaderLine::new(line).unwrap();
    assert_eq!(line, headerline.header_line);
    assert_eq!("flf2a", headerline.signature);
    assert_eq!("$", headerline.hardblank.to_string());
    assert_eq!(6, headerline.height);
    assert_eq!(5, headerline.baseline);
    assert_eq!(20, headerline.max_length);
    assert_eq!(15, headerline.old_layout);
    assert_eq!(3, headerline.comment_lines);
    assert_eq!(Some(0), headerline.print_direction);
    assert_eq!(Some(143), headerline.full_layout);
    assert_eq!(Some(229), headerline.codetag_count);
}

#[test]
fn header_with_five_tokens_is_malformed() {
    assert_eq!(FontError::MalformedHeader, HeaderLine::new("flf2a$ 6 5 20 15").unwrap_err());
    assert_eq!(FontError::MalformedHeader, HeaderLine::new("").unwrap_err());
}

#[test]
fn short_signature_is_malformed() {
    assert_eq!(FontError::MalformedHeader, HeaderLine::new("flf2$ 6 5 20 15 3").unwrap_err());
}

#[test]
fn bad_required_field_is_named() {
    assert_eq!(
        FontError::InvalidField(HeaderField::Height),
        HeaderLine::new("flf2a$ six 5 20 15 3").unwrap_err()
    );
    assert_eq!(
        FontError::InvalidField(HeaderField::CommentLines),
        HeaderLine::new("flf2a$ 6 5 20 15 3x").unwrap_err()
    );
    assert_eq!(
        FontError::InvalidField(HeaderField::Baseline),
        HeaderLine::new("flf2a$ 6 99999999999 20 15 3").unwrap_err()
    );
}

#[test]
fn bad_optional_field_is_absent() {
    let h = HeaderLine::new("flf2a$ 6 5 20 15 3 x 143").unwrap();
    assert_eq!(None, h.print_direction);
    assert_eq!(Some(143), h.full_layout);
    assert_eq!(None, h.codetag_count);
}

#[test]
fn header_tokens_split_on_any_whitespace() {
    let h = HeaderLine::new("  flf2a#\t-6  +5 20 15 0\r").unwrap();
    assert_eq!("flf2a", h.signature);
    assert_eq!('#', h.hardblank);
    assert_eq!(-6, h.height);
    assert_eq!(5, h.baseline);
    assert_eq!(0, h.comment_lines);
    assert_eq!(None, h.print_direction);
}

#[test]
fn header_integers_round_trip() {
    let line = "flf2a$ 6 5 20 15 3 0 143 229";
    let h = HeaderLine::new(line).unwrap();
    let again = format!(
        "{}{} {} {} {} {} {} {} {} {}",
        h.signature,
        h.hardblank,
        h.height,
        h.baseline,
        h.max_length,
        h.old_layout,
        h.comment_lines,
        h.print_direction.unwrap(),
        h.full_layout.unwrap(),
        h.codetag_count.unwrap()
    );
    assert_eq!(line, again);
}

#[test]
fn unicode_whitespace_separates_tokens() {
    let h = HeaderLine::new("aaaaa$\u{3000}1 1 1 1 1\u{A0}").unwrap();
    assert_eq!("aaaaa", h.signature);
    assert_eq!(1, h.comment_lines);
    assert_eq!(
        FontError::MalformedHeader,
        HeaderLine::new("aaaaa$ 1 1 1 1 \u{A0}").unwrap_err()
    );
}
