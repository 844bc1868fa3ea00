use header_parsing::classify::is_wsp;
use header_parsing::combinators::{optional, tag, tag_no_case};
use header_parsing::combinators::take_while;
use header_parsing::text::Text;

#[test]
fn unsafe_add_test() {
    let data = b"abcdef";
    let data1 = Text::from_borrowed(data, 0, 3);
    let data2 = Text::from_borrowed(data, 3, 6);
    let merged = Text::merge(data, data1, data2);

    let data3 = Text::from_borrowed(data, 0, 2);
    let data4 = Text::from_borrowed(data, 3, 6);
    let merged2 = Text::merge(data, data3, data4);

    assert!(matches!(merged, Text::Borrowed { .. }));
    assert!(matches!(merged2, Text::Owned { .. }));
}

#[test]
fn test_optional() {
    assert!(optional(0, |q| tag(b"abcdef", q, b"efg")).1.is_none());
    assert!(optional(0, |q| tag(b"abcdef", q, b"abc")).1.is_some());
}

#[test]
fn test_take_while() {
    let data = b"     abc";
    assert_eq!(take_while(data, 0, |b| is_wsp(b)).unwrap().1.len(data), 5);
    let data2 = b"abc";
    assert_eq!(take_while(data2, 0, |b| is_wsp(b)).unwrap().1.len(data2), 0);
}

#[test]
fn test_tag() {
    assert!(tag(b"abc", 0, b"def").is_err());
    assert!(tag(b"abc", 0, b"ab").is_ok());
    assert_eq!(tag(b"abc", 0, b"abc").unwrap().0, 3);
    assert!(tag(b"abc", 0, b"Ab").is_err());
    assert!(tag_no_case(b"abc", 0, b"Ab", b"aB").is_ok());
}

#[test]
fn tag_no_case_consumes_two_bytes_whatever_the_case() {
    for input in [&b"abc"[..], b"aBc", b"Abc", b"ABc"] {
        let (pos, ()) = tag_no_case(input, 0, b"Ab", b"aB").unwrap();
        assert_eq!(pos, 2);
    }
    assert!(tag_no_case(b"acb", 0, b"Ab", b"aB").is_err());
    assert!(tag_no_case(b"a", 0, b"Ab", b"aB").is_err());
}

#[test]
fn optional_keeps_cursor_on_failure() {
    let (pos, value) = optional(2, |q| tag(b"abcdef", q, b"xyz"));
    assert_eq!(pos, 2);
    assert!(value.is_none());
}

#[test]
fn take_while_consumes_all_matching_input() {
    let data = b"   \t ";
    let (pos, text) = take_while(data, 0, |b| is_wsp(b)).unwrap();
    assert_eq!(pos, data.len());
    assert_eq!(text.to_vec(data), data.to_vec());
}

#[test]
fn merge_concatenates_non_adjacent_views() {
    let data = b"abcdef";
    let a = Text::from_borrowed(data, 0, 2);
    let b = Text::from_borrowed(data, 4, 6);
    let merged = Text::merge(data, a, b);
    assert!(matches!(merged, Text::Owned { .. }));
    assert_eq!(merged.to_vec(data), b"abef".to_vec());
}

#[test]
fn lowercase_stays_borrowed_without_letters_to_change() {
    let data = b"abc-123 XYZ";
    let t = Text::from_borrowed(data, 0, 7);
    let lowered = Text::lowercase(data, t);
    assert!(matches!(lowered, Text::Borrowed { .. }));
    assert_eq!(lowered.to_vec(data), b"abc-123".to_vec());

    let u = Text::from_borrowed(data, 8, 11);
    let lowered2 = Text::lowercase(data, u);
    assert!(matches!(lowered2, Text::Owned { .. }));
    assert_eq!(lowered2.to_vec(data), b"xyz".to_vec());
}
