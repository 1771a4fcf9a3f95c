use stremio_core::text::{chars_of, decimal_of, parse_decimal, same_text};

fn parse(text: &str) -> Option<usize> {
    parse_decimal(text)
}

#[test]
fn decimal_of_writes_numbers() {
    assert_eq!(decimal_of(0), "0");
    assert_eq!(decimal_of(7), "7");
    assert_eq!(decimal_of(10), "10");
    assert_eq!(decimal_of(1203), "1203");
    assert_eq!(decimal_of(usize::MAX), usize::MAX.to_string());
}

#[test]
fn parse_decimal_reads_numbers() {
    assert_eq!(parse("0"), Some(0));
    assert_eq!(parse("7"), Some(7));
    assert_eq!(parse("10"), Some(10));
    assert_eq!(parse("1203"), Some(1203));
    assert_eq!(parse(&usize::MAX.to_string()), Some(usize::MAX));
}

#[test]
fn parse_decimal_refuses_what_is_not_a_decimal() {
    assert_eq!(parse(""), None);
    assert_eq!(parse("01"), None);
    assert_eq!(parse("00"), None);
    assert_eq!(parse("+1"), None);
    assert_eq!(parse("-1"), None);
    assert_eq!(parse("1a"), None);
    assert_eq!(parse(" 1"), None);
    assert_eq!(parse("١"), None);
}

#[test]
fn parse_decimal_refuses_numbers_that_do_not_fit() {
    let mut text = usize::MAX.to_string();
    text.push('0');
    assert_eq!(parse(&text), None);
    let above = (usize::MAX as u128 + 1).to_string();
    assert_eq!(parse(&above), None);
}

#[test]
fn chars_of_gives_every_character() {
    assert_eq!(chars_of("aé?"), vec!['a', 'é', '?']);
    assert_eq!(chars_of(""), Vec::<char>::new());
}

#[test]
fn same_text_compares_texts() {
    assert!(same_text("movie", "movie"));
    assert!(!same_text("movie", "Movie"));
    assert!(!same_text("movie", "movies"));
    assert!(same_text("", ""));
}
