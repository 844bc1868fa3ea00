use header_parsing::Error;
use header_parsing::encoded_headers::encoded_word;

fn decoded(input: &[u8]) -> (usize, Vec<u8>) {
    let (pos, text) = encoded_word(input).unwrap();
    (pos, text.to_vec(input))
}

#[test]
fn encoded_with_language() {
    let input: &[u8] = b"=?iso-8859-1*en?q?this=20is=20some=20text?=";
    let (_, text) = decoded(input);
    assert_eq!("this is some text".as_bytes(), text.as_slice());

    let input2: &[u8] = b"=?utf-8*en?q?voici=20un=20peu=20de=20texte?=";
    let (_, text2) = decoded(input2);
    assert_eq!("voici un peu de texte".as_bytes(), text2.as_slice());
}

#[test]
fn encoded_word_test() {
    let (_, text) = decoded(b"=?iso-8859-1?q?this=20is=20some=20text?=");
    assert_eq!("this is some text".as_bytes(), text.as_slice());

    let (_, text) = decoded(b"=?utf-8?q?Don=27t_forget!_Claim_your_=245_today_=F0=9F=92=B8?=");
    assert_eq!("Don't forget! Claim your $5 today 💸".as_bytes(), text.as_slice());

    let (_, text) = decoded(b"=?UTF-8?Q?Chlo=C3=A9_Helloco?=");
    assert_eq!("Chloé Helloco".as_bytes(), text.as_slice());

    let (_, text) = decoded(b"=?ISO-8859-1?B?SWYgeW91IGNhbiByZWFkIHRoaXMgeW8=?=");
    assert_eq!("If you can read this yo".as_bytes(), text.as_slice());

    let (_, text) = decoded(b"=?ISO-8859-2?B?dSB1bmRlcnN0YW5kIHRoZSBleGFtcGxlLg==?=");
    assert_eq!("u understand the example.".as_bytes(), text.as_slice());
}

#[test]
fn decode_leaves_empty_remainder() {
    let input: &[u8] = b"=?utf-8?q?voici=20un=20peu=20de=20texte?=";
    let (pos, text) = decoded(input);
    assert_eq!(pos, input.len());
    assert_eq!("voici un peu de texte".as_bytes(), text.as_slice());
}

#[test]
fn unknown_charset_is_unsupported() {
    assert_eq!(encoded_word(b"=?klingon?q?abc?=").unwrap_err(), Error::Unsupported);
}

#[test]
fn unknown_encoding_is_unsupported() {
    assert_eq!(encoded_word(b"=?utf-8?x?abc?=").unwrap_err(), Error::Unsupported);
}

#[test]
fn missing_opener_is_tag_mismatch() {
    assert_eq!(encoded_word(b"hello").unwrap_err(), Error::TagMismatch);
    assert_eq!(encoded_word(b"").unwrap_err(), Error::TagMismatch);
    assert_eq!(encoded_word(b"=?utf-8?q?abc").unwrap_err(), Error::TagMismatch);
}

#[test]
fn empty_charset_is_grammar_violation() {
    assert_eq!(encoded_word(b"=??q?abc?=").unwrap_err(), Error::GrammarViolation);
}

#[test]
fn bad_base64_is_decode_failure() {
    assert_eq!(encoded_word(b"=?utf-8?b?a?=").unwrap_err(), Error::DecodeFailure);
    assert_eq!(encoded_word(b"=?utf-8?b?a!!!?=").unwrap_err(), Error::DecodeFailure);
}

#[test]
fn invalid_utf8_payload_is_decode_failure() {
    assert_eq!(encoded_word(b"=?utf-8?b?/w==?=").unwrap_err(), Error::DecodeFailure);
}

#[test]
fn charset_table_converts_high_bytes() {
    let (_, text) = decoded(b"=?iso-8859-1?q?caf=E9?=");
    assert_eq!("café".as_bytes(), text.as_slice());
}

#[test]
fn base64_padding_forms_decode() {
    let (_, text) = decoded(b"=?us-ascii?b?YQ==?=");
    assert_eq!(b"a".to_vec(), text);
    let (_, text) = decoded(b"=?us-ascii?b?YWI=?=");
    assert_eq!(b"ab".to_vec(), text);
    let (_, text) = decoded(b"=?us-ascii?b?YWJj?=");
    assert_eq!(b"abc".to_vec(), text);
}

#[test]
fn quoted_printable_underscore_is_space() {
    let (_, text) = decoded(b"=?us-ascii?q?a_b?=");
    assert_eq!(b"a b".to_vec(), text);
}

#[test]
fn malformed_escape_stands_for_itself() {
    let (_, text) = decoded(b"=?us-ascii?q?a=zb?=");
    assert_eq!(b"a=zb".to_vec(), text);
}
