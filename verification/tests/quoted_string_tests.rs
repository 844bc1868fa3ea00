use header_parsing::Error;
use header_parsing::quoted_string::{quoted_pair, quoted_string};
use header_parsing::text::Text;

fn parsed(input: &[u8]) -> (usize, Vec<u8>) {
    let (pos, text) = quoted_string(input).unwrap();
    (pos, text.to_vec(input))
}

#[test]
fn escaped_space_is_retained_and_backslash_dropped() {
    let input: &[u8] = b"\"abc\\ def\"";
    let (pos, text) = parsed(input);
    assert_eq!(b"abc def".to_vec(), text);
    assert_eq!(pos, input.len());
}

#[test]
fn missing_closing_quote_is_grammar_violation() {
    assert_eq!(quoted_string(b"\"abc").unwrap_err(), Error::GrammarViolation);
}

#[test]
fn missing_opening_quote_is_grammar_violation() {
    assert_eq!(quoted_string(b"abc\"").unwrap_err(), Error::GrammarViolation);
}

#[test]
fn plain_quoted_text() {
    let (pos, text) = parsed(b"\"hello\" tail");
    assert_eq!(b"hello".to_vec(), text);
    assert_eq!(pos, 8);
}

#[test]
fn contiguous_body_stays_borrowed() {
    let input: &[u8] = b"\"abc def\"";
    let (_, text) = quoted_string(input).unwrap();
    assert!(matches!(text, Text::Borrowed { .. }));
    assert_eq!(text.to_vec(input), b"abc def".to_vec());
}

#[test]
fn escaped_body_becomes_owned() {
    let input: &[u8] = b"\"abc\\ def\"";
    let (_, text) = quoted_string(input).unwrap();
    assert!(matches!(text, Text::Owned { .. }));
}

#[test]
fn inner_whitespace_is_retained() {
    let (_, text) = parsed(b"\"a b\"");
    assert_eq!(b"a b".to_vec(), text);
}

#[test]
fn folded_whitespace_is_retained_literally() {
    let (_, text) = parsed(b"\"a\r\n b\"");
    assert_eq!(b"a\r\n b".to_vec(), text);
}

#[test]
fn leading_comment_is_skipped() {
    let (_, text) = parsed(b"(a comment) \"hi\"");
    assert_eq!(b"hi".to_vec(), text);
}

#[test]
fn trailing_comment_is_skipped() {
    let input: &[u8] = b"\"hi\" (note)";
    let (pos, text) = parsed(input);
    assert_eq!(b"hi".to_vec(), text);
    assert_eq!(pos, input.len());
}

#[test]
fn empty_quoted_string() {
    let (pos, text) = parsed(b"\"\"");
    assert_eq!(Vec::<u8>::new(), text);
    assert_eq!(pos, 2);
}

#[test]
fn quoted_pair_requires_backslash() {
    assert_eq!(quoted_pair(b"abc", 0).unwrap_err(), Error::TagMismatch);
    assert_eq!(quoted_pair(b"\\", 0).unwrap_err(), Error::GrammarViolation);
    let input: &[u8] = b"\\ x";
    let (pos, text) = quoted_pair(input, 0).unwrap();
    assert_eq!(pos, 2);
    assert_eq!(text.to_vec(input), b" ".to_vec());
}
