use header_parsing::Error;
use header_parsing::combinators::{
    collect_many, collect_pair, ignore_many, many, many1, match_parsers, pair, prefixed, tag,
    take_while1, triplet,
};
use header_parsing::classify::is_wsp;

fn digit(input: &[u8], pos: usize) -> Result<(usize, u8), Error> {
    if pos < input.len() && input[pos].is_ascii_digit() {
        Ok((pos + 1, input[pos] - b'0'))
    } else {
        Err(Error::GrammarViolation)
    }
}

#[test]
fn many_collects_in_order() {
    let data = b"123ab";
    let (pos, values) = many(data, 0, |q| digit(data, q)).unwrap();
    assert_eq!(pos, 3);
    assert_eq!(values, vec![1, 2, 3]);

    let (pos, values) = many(b"ab", 0, |q| digit(b"ab", q)).unwrap();
    assert_eq!(pos, 0);
    assert!(values.is_empty());
}

#[test]
fn many1_needs_one_match() {
    let data = b"7x";
    let (pos, values) = many1(data, 0, |q| digit(data, q)).unwrap();
    assert_eq!(pos, 1);
    assert_eq!(values, vec![7]);

    assert_eq!(many1(b"x", 0, |q| digit(b"x", q)).unwrap_err(), Error::GrammarViolation);
}

#[test]
fn ignore_many_discards_and_advances() {
    let data = b"99end";
    let (pos, ()) = ignore_many(data, 0, |q| digit(data, q)).unwrap();
    assert_eq!(pos, 2);
}

#[test]
fn collect_many_merges_adjacent_fragments() {
    let data = b"ab cd!";
    let parser = |q: usize| {
        if q < data.len() && data[q] != b'!' {
            Ok((q + 1, header_parsing::text::Text::from_borrowed(data, q, q + 1)))
        } else {
            Err(Error::GrammarViolation)
        }
    };
    let (pos, acc) = collect_many(data, 0, parser).unwrap();
    assert_eq!(pos, 5);
    assert_eq!(acc.to_vec(data), b"ab cd".to_vec());
    assert!(matches!(acc, header_parsing::text::Text::Borrowed { .. }));
}

#[test]
fn pair_and_triplet_run_in_sequence() {
    let data = b"12x";
    let (pos, (a, b)) = pair(0, |q| digit(data, q), |q| digit(data, q)).unwrap();
    assert_eq!(pos, 2);
    assert_eq!((a, b), (1, 2));

    assert_eq!(
        pair(0, |q| digit(data, q), |q| tag(data, q, b"y")).unwrap_err(),
        Error::TagMismatch
    );

    let data3 = b"345";
    let (pos, (a, b, c)) =
        triplet(0, |q| digit(data3, q), |q| digit(data3, q), |q| digit(data3, q)).unwrap();
    assert_eq!(pos, 3);
    assert_eq!((a, b, c), (3, 4, 5));
}

#[test]
fn collect_pair_merges_both_fragments() {
    let data = b"  hi";
    let ws = |q: usize| {
        take_while1(data, q, |b| is_wsp(b))
    };
    let word = |q: usize| take_while1(data, q, |b| !is_wsp(b));
    let (pos, acc) = collect_pair(data, 0, ws, word).unwrap();
    assert_eq!(pos, 4);
    assert_eq!(acc.to_vec(data), b"  hi".to_vec());
    assert!(matches!(acc, header_parsing::text::Text::Borrowed { .. }));
}

#[test]
fn match_parsers_takes_first_success() {
    let data = b"abc";
    let parsers = [
        |q: usize| tag(b"abc", q, b"xy"),
        |q: usize| tag(b"abc", q, b"ab"),
        |q: usize| tag(b"abc", q, b"a"),
    ];
    let (pos, ()) = match_parsers(0, &parsers).unwrap();
    assert_eq!(pos, 2);
    let _ = data;

    let losers = [|q: usize| tag(b"abc", q, b"zz")];
    assert_eq!(match_parsers(0, &losers).unwrap_err(), Error::GrammarViolation);
}

#[test]
fn prefixed_strips_the_literal_first() {
    let data = b"v=42";
    let (pos, n) = prefixed(data, 0, |q| digit(data, q), b"v=").unwrap();
    assert_eq!(pos, 3);
    assert_eq!(n, 4);

    assert_eq!(
        prefixed(data, 0, |q| digit(data, q), b"w=").unwrap_err(),
        Error::TagMismatch
    );
}
