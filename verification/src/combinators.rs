use vstd::prelude::*;

use crate::Error;
use crate::text::Text;

verus! {

/// True iff `a` and `b` are the two case variants of one byte: for an ASCII
/// letter the opposite case of the same letter, for any other byte the same
/// byte.
pub open spec fn case_complement(a: u8, b: u8) -> bool {
    if 65 <= a && a <= 90 {
        b == a + 32
    } else if 97 <= a && a <= 122 {
        b == a - 32
    } else {
        b == a
    }
}

/// True iff `input` holds `expected` byte for byte at `pos`.
pub open spec fn starts_with_at(input: Seq<u8>, pos: int, expected: Seq<u8>) -> bool {
    &&& pos + expected.len() <= input.len()
    &&& input.subrange(pos, pos + expected.len()) == expected
}

/// Succeeds iff the input at `pos` starts with `expected` (exact bytes);
/// advances past it; fails with a tag-mismatch error otherwise.
pub fn tag(input: &[u8], pos: usize, expected: &[u8]) -> (r: Result<(usize, ()), Error>)
    requires
        pos <= input@.len(),
    ensures
        r is Ok <==> starts_with_at(input@, pos as int, expected@),
        r matches Ok(o) ==> o.0 == pos + expected@.len(),
        r matches Err(e) ==> e == Error::TagMismatch,
{
    if input.len() - pos < expected.len() {
        return Err(Error::TagMismatch);
    }
    let mut i: usize = 0;
    while i < expected.len()
        invariant
            pos + expected@.len() <= input@.len(),
            i <= expected@.len(),
            forall|j: int| 0 <= j < i ==> input@[pos + j] == expected@[j],
        decreases expected@.len() - i,
    {
        if input[pos + i] != expected[i] {
            proof {
                let ghost k = i as int;
                assert(input@.subrange(pos as int, pos + expected@.len())[k] != expected@[k]);
            }
            return Err(Error::TagMismatch);
        }
        i += 1;
    }
    proof {
        assert(input@.subrange(pos as int, pos + expected@.len()) =~= expected@);
    }
    Ok((pos + expected.len(), ()))
}

/// Case-insensitive literal match: each input byte must equal the
/// corresponding byte of either variant. The two variants must be exact
/// case complements of each other, byte for byte.
pub fn tag_no_case(input: &[u8], pos: usize, expected: &[u8], expected2: &[u8]) -> (r: Result<
    (usize, ()),
    Error,
>)
    requires
        pos <= input@.len(),
        expected@.len() == expected2@.len(),
        forall|j: int| 0 <= j < expected@.len() ==> case_complement(expected@[j], expected2@[j]),
    ensures
        r is Ok <==> pos + expected@.len() <= input@.len() && (forall|j: int|
            0 <= j < expected@.len() ==> input@[pos + j] == expected@[j] || input@[pos + j]
                == expected2@[j]),
        r matches Ok(o) ==> o.0 == pos + expected@.len(),
        r matches Err(e) ==> e == Error::TagMismatch,
{
    if input.len() - pos < expected.len() {
        return Err(Error::TagMismatch);
    }
    let mut i: usize = 0;
    while i < expected.len()
        invariant
            pos + expected@.len() <= input@.len(),
            expected@.len() == expected2@.len(),
            i <= expected@.len(),
            forall|j: int|
                0 <= j < i ==> input@[pos + j] == expected@[j] || input@[pos + j] == expected2@[j],
        decreases expected@.len() - i,
    {
        if input[pos + i] != expected[i] && input[pos + i] != expected2[i] {
            return Err(Error::TagMismatch);
        }
        i += 1;
    }
    Ok((pos + expected.len(), ()))
}

/// Every input whose bytes match `expected` case-insensitively matches
/// either variant byte for byte, so `tag_no_case` accepts it.
pub proof fn lemma_case_insensitive_match(input: Seq<u8>, pos: int, expected: Seq<u8>, expected2: Seq<u8>)
    requires
        expected.len() == expected2.len(),
        forall|j: int| 0 <= j < expected.len() ==> case_complement(expected[j], expected2[j]),
        0 <= pos,
        pos + expected.len() <= input.len(),
        forall|j: int|
            0 <= j < expected.len() ==> crate::text::to_lower(input[pos + j]) == crate::text::to_lower(
                expected[j],
            ),
    ensures
        forall|j: int|
            0 <= j < expected.len() ==> input[pos + j] == expected[j] || input[pos + j]
                == expected2[j],
{
}

/// Runs `parser`; on success returns the advanced position and the value;
/// on failure returns the original position unchanged with `None` — a
/// failure here is never propagated.
pub fn optional<T, F: Fn(usize) -> Result<(usize, T), Error>>(pos: usize, parser: F) -> (r: (
    usize,
    Option<T>,
))
    requires
        call_requires(parser, (pos,)),
    ensures
        r.1 is None ==> r.0 == pos && exists|e: Error|
            call_ensures(parser, (pos,), Err::<(usize, T), Error>(e)),
        r.1 matches Some(v) ==> call_ensures(parser, (pos,), Ok((r.0, v))),
{
    let step = parser(pos);
    let ghost g = step;
    match step {
        Ok((new_pos, value)) => (new_pos, Some(value)),
        Err(e) => {
            proof {
                assert(g == Err::<(usize, T), Error>(e));
                assert(exists|e2: Error|
                    call_ensures(parser, (pos,), Err::<(usize, T), Error>(e2)));
            }
            (pos, None)
        }
    }
}

/// The parser admits failing at `pos`.
pub open spec fn halts_at<T, F: Fn(usize) -> Result<(usize, T), Error>>(
    parser: F,
    pos: usize,
) -> bool {
    exists|e: Error| call_ensures(parser, (pos,), Err::<(usize, T), Error>(e))
}

/// Each of the first `n` parsers admits failing at `pos`.
pub open spec fn all_fail_before<T, F: Fn(usize) -> Result<(usize, T), Error>>(
    parsers: Seq<F>,
    pos: usize,
    n: int,
) -> bool {
    forall|j: int| 0 <= j < n ==> halts_at::<T, F>(#[trigger] parsers[j], pos)
}

/// Parser `i` produced the result at `pos` and every parser before it
/// admits failing there: the first match wins.
pub open spec fn picked_first<T, F: Fn(usize) -> Result<(usize, T), Error>>(
    parsers: Seq<F>,
    pos: usize,
    i: int,
    o: (usize, T),
) -> bool {
    &&& 0 <= i < parsers.len()
    &&& call_ensures(parsers[i], (pos,), Ok::<(usize, T), Error>(o))
    &&& all_fail_before(parsers, pos, i)
}

/// Tries each parser in order against the same position and returns the
/// first success, every earlier parser having failed; if all fail, fails
/// with a generic grammar error.
pub fn match_parsers<T, F: Fn(usize) -> Result<(usize, T), Error>>(
    pos: usize,
    parsers: &[F],
) -> (r: Result<(usize, T), Error>)
    requires
        forall|i: int| 0 <= i < parsers@.len() ==> call_requires(#[trigger] parsers@[i], (pos,)),
    ensures
        r matches Ok(o) ==> exists|i: int| picked_first(parsers@, pos, i, o),
        r matches Err(e) ==> e == Error::GrammarViolation && all_fail_before::<T, F>(
            parsers@,
            pos,
            parsers@.len() as int,
        ),
{
    let mut i: usize = 0;
    while i < parsers.len()
        invariant
            i <= parsers@.len(),
            forall|k: int| 0 <= k < parsers@.len() ==> call_requires(#[trigger] parsers@[k], (pos,)),
            all_fail_before::<T, F>(parsers@, pos, i as int),
        decreases parsers@.len() - i,
    {
        let result = (&parsers[i])(pos);
        let ghost g = result;
        if result.is_ok() {
            proof {
                assert(g matches Ok(o2) && picked_first(parsers@, pos, i as int, o2));
            }
            return result;
        }
        proof {
            let e_g = g->Err_0;
            assert(g == Err::<(usize, T), Error>(e_g));
            assert(halts_at::<T, F>(parsers@[i as int], pos));
            assert forall|j: int|
                0 <= j < i + 1 implies halts_at::<T, F>(#[trigger] parsers@[j], pos) by {
                if j < i {
                }
            }
            assert(all_fail_before::<T, F>(parsers@, pos, i as int + 1));
        }
        i += 1;
    }
    Err(Error::GrammarViolation)
}

/// Consumes the longest prefix (possibly empty) whose bytes all satisfy
/// `condition`; never fails. When every byte of the remaining input can
/// only satisfy the condition, the whole input is consumed.
pub fn take_while<F: Fn(u8) -> bool>(input: &[u8], pos: usize, condition: F) -> (r: Result<
    (usize, Text),
    Error,
>)
    requires
        pos <= input@.len(),
        forall|b: u8| call_requires(condition, (b,)),
    ensures
        r is Ok,
        r matches Ok(o) ==> {
            &&& pos <= o.0 <= input@.len()
            &&& o.1 == (Text::Borrowed { start: pos, end: o.0 })
            &&& forall|j: int| pos <= j < o.0 ==> call_ensures(condition, (input@[j],), true)
            &&& o.0 < input@.len() ==> call_ensures(condition, (input@[o.0 as int],), false)
        },
        (forall|j: int| pos <= j < input@.len() ==> !call_ensures(condition, (input@[j],), false))
            ==> (r matches Ok(o) && o.0 == input@.len()),
{
    let mut i: usize = pos;
    while i < input.len()
        invariant
            pos <= i <= input@.len(),
            forall|b: u8| call_requires(condition, (b,)),
            forall|j: int| pos <= j < i ==> call_ensures(condition, (input@[j],), true),
        decreases input@.len() - i,
    {
        if !condition(input[i]) {
            return Ok((i, Text::Borrowed { start: pos, end: i }));
        }
        i += 1;
    }
    Ok((i, Text::Borrowed { start: pos, end: i }))
}

/// Like `take_while`, but fails with a grammar error when the matching
/// prefix would be empty (input exhausted or first byte rejected).
pub fn take_while1<F: Fn(u8) -> bool>(input: &[u8], pos: usize, condition: F) -> (r: Result<
    (usize, Text),
    Error,
>)
    requires
        pos <= input@.len(),
        forall|b: u8| call_requires(condition, (b,)),
    ensures
        r matches Ok(o) ==> {
            &&& pos < o.0 <= input@.len()
            &&& o.1 == (Text::Borrowed { start: pos, end: o.0 })
            &&& forall|j: int| pos <= j < o.0 ==> call_ensures(condition, (input@[j],), true)
            &&& o.0 < input@.len() ==> call_ensures(condition, (input@[o.0 as int],), false)
        },
        r matches Err(e) ==> {
            &&& e == Error::GrammarViolation
            &&& pos == input@.len() || call_ensures(condition, (input@[pos as int],), false)
        },
        (pos < input@.len() && (forall|j: int|
            pos <= j < input@.len() ==> !call_ensures(condition, (input@[j],), false))) ==> (
        r matches Ok(o) && o.0 == input@.len()),
{
    if pos == input.len() {
        return Err(Error::GrammarViolation);
    }
    if !condition(input[pos]) {
        return Err(Error::GrammarViolation);
    }
    let mut i: usize = pos + 1;
    while i < input.len()
        invariant
            pos < i <= input@.len(),
            forall|j: int| pos <= j < i ==> call_ensures(condition, (input@[j],), true),
        decreases input@.len() - i,
    {
        if !condition(input[i]) {
            return Ok((i, Text::Borrowed { start: pos, end: i }));
        }
        i += 1;
    }
    Ok((i, Text::Borrowed { start: pos, end: i }))
}

/// One successful run of the parser from `a` to `b`, yielding `v`.
pub open spec fn chain_step<T, F: Fn(usize) -> Result<(usize, T), Error>>(
    parser: F,
    a: usize,
    b: usize,
    v: T,
) -> bool {
    a < b && call_ensures(parser, (a,), Ok::<(usize, T), Error>((b, v)))
}

/// `ends` lists the positions after each run of a chain of successful
/// parses that starts at `lo`, ends at `hi` and yields the values `vs`,
/// each run starting where the previous one stopped.
pub open spec fn chain_ends<T, F: Fn(usize) -> Result<(usize, T), Error>>(
    parser: F,
    lo: usize,
    hi: usize,
    vs: Seq<T>,
    ends: Seq<usize>,
) -> bool {
    &&& ends.len() == vs.len()
    &&& if vs.len() == 0 {
        lo == hi
    } else {
        ends.last() == hi
    }
    &&& forall|k: int|
        0 <= k < vs.len() ==> chain_step(
            parser,
            (if k == 0 {
                lo
            } else {
                ends[k - 1]
            }),
            #[trigger] ends[k],
            vs[k],
        )
}

/// The parser's successful runs turn position `lo` into position `hi` and
/// yield exactly the values `vs`, each run starting where the previous one
/// stopped.
pub open spec fn parses_to<T, F: Fn(usize) -> Result<(usize, T), Error>>(
    parser: F,
    lo: usize,
    hi: usize,
    vs: Seq<T>,
) -> bool {
    exists|ends: Seq<usize>| chain_ends(parser, lo, hi, vs, ends)
}

/// Some chain of successful runs of the parser leads from `lo` to `hi`.
pub open spec fn steps_reach<T, F: Fn(usize) -> Result<(usize, T), Error>>(
    parser: F,
    lo: usize,
    hi: usize,
) -> bool {
    exists|vs: Seq<T>| parses_to(parser, lo, hi, vs)
}

/// Extends a chain of successful runs by one run at its end.
pub proof fn lemma_chain_ends_push<T, F: Fn(usize) -> Result<(usize, T), Error>>(
    parser: F,
    lo: usize,
    mid: usize,
    hi: usize,
    vs: Seq<T>,
    ends: Seq<usize>,
    v: T,
)
    requires
        chain_ends(parser, lo, mid, vs, ends),
        chain_step(parser, mid, hi, v),
    ensures
        chain_ends(parser, lo, hi, vs.push(v), ends.push(hi)),
{
    let vs2 = vs.push(v);
    let ends2 = ends.push(hi);
    assert forall|k: int|
        0 <= k < vs2.len() implies chain_step(
        parser,
        (if k == 0 {
            lo
        } else {
            ends2[k - 1]
        }),
        #[trigger] ends2[k],
        vs2[k],
    ) by {
        if k < vs.len() {
            assert(ends2[k] == ends[k] && vs2[k] == vs[k]);
            if k > 0 {
                assert(ends2[k - 1] == ends[k - 1]);
            }
            assert(chain_step(
                parser,
                (if k == 0 {
                    lo
                } else {
                    ends[k - 1]
                }),
                ends[k],
                vs[k],
            ));
        } else {
            assert(ends2[k] == hi && vs2[k] == v);
            if k > 0 {
                assert(ends2[k - 1] == ends[k - 1] && ends[k - 1] == ends.last());
            }
        }
    }
}

/// Repeats `parser` until it fails, discarding the produced values;
/// always succeeds.
pub fn ignore_many<T, F: Fn(usize) -> Result<(usize, T), Error>>(
    input: &[u8],
    pos: usize,
    parser: F,
) -> (r: Result<(usize, ()), Error>)
    requires
        pos <= input@.len(),
        forall|q: usize| q <= input@.len() ==> call_requires(parser, (q,)),
        forall|q: usize, r2: Result<(usize, T), Error>| #[trigger]
            call_ensures(parser, (q,), r2) ==> (r2 matches Ok(o) ==> q < o.0 <= input@.len()),
    ensures
        r matches Ok(o) && pos <= o.0 <= input@.len() && steps_reach::<T, F>(parser, pos, o.0)
            && halts_at::<T, F>(parser, o.0),
{
    let mut cur: usize = pos;
    let ghost mut vs: Seq<T> = Seq::empty();
    let ghost mut ends: Seq<usize> = Seq::empty();
    loop
        invariant
            pos <= cur <= input@.len(),
            chain_ends(parser, pos, cur, vs, ends),
        decreases input@.len() - cur,
    {
        let step = parser(cur);
        let ghost g_step = step;
        match step {
            Ok((new_pos, value)) => {
                let ghost g_value = value;
                proof {
                    assert(g_step == Ok::<(usize, T), Error>((new_pos, g_value)));
                    assert(chain_step(parser, cur, new_pos, g_value));
                    lemma_chain_ends_push(parser, pos, cur, new_pos, vs, ends, g_value);
                    vs = vs.push(g_value);
                    ends = ends.push(new_pos);
                }
                cur = new_pos;
            }
            Err(e) => {
                proof {
                    assert(g_step == Err::<(usize, T), Error>(e));
                    assert(halts_at::<T, F>(parser, cur));
                    assert(parses_to(parser, pos, cur, vs));
                    assert(steps_reach::<T, F>(parser, pos, cur));
                }
                return Ok((cur, ()));
            }
        }
    }
}

/// Collects repeated results of `parser` into a vector, in parse order:
/// the exact chain of successful runs from `pos` to the final position,
/// where the parser then fails; always succeeds (zero or more matches).
pub fn many<T, F: Fn(usize) -> Result<(usize, T), Error>>(input: &[u8], pos: usize, parser: F) -> (r:
    Result<(usize, Vec<T>), Error>)
    requires
        pos <= input@.len(),
        forall|q: usize| q <= input@.len() ==> call_requires(parser, (q,)),
        forall|q: usize, r2: Result<(usize, T), Error>| #[trigger]
            call_ensures(parser, (q,), r2) ==> (r2 matches Ok(o) ==> q < o.0 <= input@.len()),
    ensures
        r matches Ok(o) && pos <= o.0 <= input@.len() && parses_to(parser, pos, o.0, o.1@)
            && halts_at::<T, F>(parser, o.0),
{
    let mut cur: usize = pos;
    let mut results: Vec<T> = Vec::new();
    let ghost mut ends: Seq<usize> = Seq::empty();
    loop
        invariant
            pos <= cur <= input@.len(),
            chain_ends(parser, pos, cur, results@, ends),
        decreases input@.len() - cur,
    {
        let step = parser(cur);
        let ghost g_step = step;
        match step {
            Ok((new_pos, value)) => {
                let ghost g_value = value;
                let ghost prev_cur = cur;
                let ghost prev_results = results@;
                results.push(value);
                cur = new_pos;
                proof {
                    assert(g_step == Ok::<(usize, T), Error>((new_pos, g_value)));
                    assert(chain_step(parser, prev_cur, cur, g_value));
                    lemma_chain_ends_push(parser, pos, prev_cur, cur, prev_results, ends, g_value);
                    ends = ends.push(cur);
                    assert(results@ == prev_results.push(g_value));
                }
            }
            Err(e) => {
                proof {
                    assert(g_step == Err::<(usize, T), Error>(e));
                    assert(halts_at::<T, F>(parser, cur));
                    assert(parses_to(parser, pos, cur, results@));
                }
                return Ok((cur, results));
            }
        }
    }
}

/// Like `many`, but requires at least one match; a failure of the first
/// parse is propagated.
pub fn many1<T, F: Fn(usize) -> Result<(usize, T), Error>>(input: &[u8], pos: usize, parser: F) -> (r:
    Result<(usize, Vec<T>), Error>)
    requires
        pos <= input@.len(),
        forall|q: usize| q <= input@.len() ==> call_requires(parser, (q,)),
        forall|q: usize, r2: Result<(usize, T), Error>| #[trigger]
            call_ensures(parser, (q,), r2) ==> (r2 matches Ok(o) ==> q < o.0 <= input@.len()),
    ensures
        r matches Ok(o) ==> pos < o.0 <= input@.len() && o.1@.len() >= 1 && parses_to(
            parser,
            pos,
            o.0,
            o.1@,
        ) && halts_at::<T, F>(parser, o.0),
        r matches Err(e) ==> call_ensures(parser, (pos,), Err::<(usize, T), Error>(e)),
{
    let mut results: Vec<T> = Vec::new();
    let mut cur: usize;
    let ghost mut ends: Seq<usize> = Seq::empty();
    let head = parser(pos);
    let ghost g_head = head;
    match head {
        Ok((new_pos, value)) => {
            let ghost g_value = value;
            results.push(value);
            cur = new_pos;
            proof {
                assert(g_head == Ok::<(usize, T), Error>((new_pos, g_value)));
                assert(chain_step(parser, pos, cur, g_value));
                lemma_chain_ends_push(parser, pos, pos, cur, Seq::empty(), ends, g_value);
                ends = ends.push(cur);
                assert(results@ == Seq::<T>::empty().push(g_value));
            }
        }
        Err(e) => {
            proof {
                assert(g_head == Err::<(usize, T), Error>(e));
            }
            return Err(e);
        }
    }
    loop
        invariant
            pos < cur <= input@.len(),
            results@.len() >= 1,
            chain_ends(parser, pos, cur, results@, ends),
        decreases input@.len() - cur,
    {
        let step = parser(cur);
        let ghost g_step = step;
        match step {
            Ok((new_pos, value)) => {
                let ghost g_value = value;
                let ghost prev_cur = cur;
                let ghost prev_results = results@;
                results.push(value);
                cur = new_pos;
                proof {
                    assert(g_step == Ok::<(usize, T), Error>((new_pos, g_value)));
                    assert(chain_step(parser, prev_cur, cur, g_value));
                    lemma_chain_ends_push(parser, pos, prev_cur, cur, prev_results, ends, g_value);
                    ends = ends.push(cur);
                    assert(results@ == prev_results.push(g_value));
                }
            }
            Err(e) => {
                proof {
                    assert(g_step == Err::<(usize, T), Error>(e));
                    assert(halts_at::<T, F>(parser, cur));
                    assert(parses_to(parser, pos, cur, results@));
                }
                return Ok((cur, results));
            }
        }
    }
}

/// `ends`, `frags` and `accs` record a chain of successful runs of the
/// parser from `lo` to `hi`: the position after each run, the fragment it
/// produced, and the accumulator after merging that fragment, starting
/// from `acc0` and ending at `out`.
pub open spec fn merge_chain<F: Fn(usize) -> Result<(usize, Text), Error>>(
    parser: F,
    buf: Seq<u8>,
    lo: usize,
    hi: usize,
    acc0: Text,
    out: Text,
    ends: Seq<usize>,
    frags: Seq<Text>,
    accs: Seq<Text>,
) -> bool {
    &&& ends.len() == frags.len()
    &&& ends.len() == accs.len()
    &&& if ends.len() == 0 {
        lo == hi && out == acc0
    } else {
        ends.last() == hi && accs.last() == out
    }
    &&& forall|k: int|
        0 <= k < ends.len() ==> chain_step(
            parser,
            (if k == 0 {
                lo
            } else {
                ends[k - 1]
            }),
            #[trigger] ends[k],
            frags[k],
        ) && crate::text::merge_rel(
            buf,
            (if k == 0 {
                acc0
            } else {
                accs[k - 1]
            }),
            frags[k],
            accs[k],
        )
}

/// Starting from the accumulator `acc0`, the parser's successful runs from
/// `lo` to `hi` merge their fragments, each per the merge rules, into
/// `out`.
pub open spec fn collects_text<F: Fn(usize) -> Result<(usize, Text), Error>>(
    parser: F,
    buf: Seq<u8>,
    lo: usize,
    hi: usize,
    acc0: Text,
    out: Text,
) -> bool {
    exists|ends: Seq<usize>, frags: Seq<Text>, accs: Seq<Text>|
        merge_chain(parser, buf, lo, hi, acc0, out, ends, frags, accs)
}

/// Extends a merge chain by one successful run at its end.
pub proof fn lemma_merge_chain_push<F: Fn(usize) -> Result<(usize, Text), Error>>(
    parser: F,
    buf: Seq<u8>,
    lo: usize,
    mid: usize,
    hi: usize,
    acc0: Text,
    out: Text,
    ends: Seq<usize>,
    frags: Seq<Text>,
    accs: Seq<Text>,
    t: Text,
    merged: Text,
)
    requires
        merge_chain(parser, buf, lo, mid, acc0, out, ends, frags, accs),
        chain_step(parser, mid, hi, t),
        crate::text::merge_rel(buf, out, t, merged),
    ensures
        merge_chain(parser, buf, lo, hi, acc0, merged, ends.push(hi), frags.push(t), accs.push(merged)),
{
    let ends2 = ends.push(hi);
    let frags2 = frags.push(t);
    let accs2 = accs.push(merged);
    assert forall|k: int|
        0 <= k < ends2.len() implies chain_step(
        parser,
        (if k == 0 {
            lo
        } else {
            ends2[k - 1]
        }),
        #[trigger] ends2[k],
        frags2[k],
    ) && crate::text::merge_rel(
        buf,
        (if k == 0 {
            acc0
        } else {
            accs2[k - 1]
        }),
        frags2[k],
        accs2[k],
    ) by {
        if k < ends.len() {
            assert(ends2[k] == ends[k] && frags2[k] == frags[k] && accs2[k] == accs[k]);
            if k > 0 {
                assert(ends2[k - 1] == ends[k - 1] && accs2[k - 1] == accs[k - 1]);
            }
            assert(chain_step(
                parser,
                (if k == 0 {
                    lo
                } else {
                    ends[k - 1]
                }),
                ends[k],
                frags[k],
            ) && crate::text::merge_rel(
                buf,
                (if k == 0 {
                    acc0
                } else {
                    accs[k - 1]
                }),
                frags[k],
                accs[k],
            ));
        } else {
            assert(ends2[k] == hi && frags2[k] == t && accs2[k] == merged);
            if k > 0 {
                assert(ends2[k - 1] == ends[k - 1] && ends[k - 1] == ends.last());
                assert(accs2[k - 1] == accs[k - 1] && accs[k - 1] == accs.last());
            }
        }
    }
}

/// Like `many` for text-producing parsers: the fragments of the maximal
/// chain of successful runs are merged in parse order, starting from an
/// empty borrowed range at `pos`, into one accumulated text value (empty
/// when nothing matches); always succeeds, stopping where the parser
/// fails.
pub fn collect_many<F: Fn(usize) -> Result<(usize, Text), Error>>(
    input: &[u8],
    pos: usize,
    parser: F,
) -> (r: Result<(usize, Text), Error>)
    requires
        pos <= input@.len(),
        forall|q: usize| q <= input@.len() ==> call_requires(parser, (q,)),
        forall|q: usize, r2: Result<(usize, Text), Error>| #[trigger]
            call_ensures(parser, (q,), r2) ==> (r2 matches Ok(o) ==> q < o.0 <= input@.len()
                && o.1.wf(input@)),
    ensures
        r matches Ok(o) && pos <= o.0 <= input@.len() && o.1.wf(input@) && collects_text(
            parser,
            input@,
            pos,
            o.0,
            (Text::Borrowed { start: pos, end: pos }),
            o.1,
        ) && halts_at::<Text, F>(parser, o.0),
{
    let mut cur: usize = pos;
    let mut acc = Text::Borrowed { start: pos, end: pos };
    let ghost mut ends: Seq<usize> = Seq::empty();
    let ghost mut frags: Seq<Text> = Seq::empty();
    let ghost mut accs: Seq<Text> = Seq::empty();
    loop
        invariant
            pos <= cur <= input@.len(),
            acc.wf(input@),
            merge_chain(
                parser,
                input@,
                pos,
                cur,
                (Text::Borrowed { start: pos, end: pos }),
                acc,
                ends,
                frags,
                accs,
            ),
        decreases input@.len() - cur,
    {
        let step = parser(cur);
        let ghost g_step = step;
        match step {
            Ok((new_pos, value)) => {
                let ghost g_value = value;
                let ghost prev_cur = cur;
                let ghost prev_acc = acc;
                proof {
                    assert(g_step == Ok::<(usize, Text), Error>((new_pos, g_value)));
                }
                let merged = Text::merge(input, acc, value);
                proof {
                    assert(chain_step(parser, prev_cur, new_pos, g_value));
                    lemma_merge_chain_push(
                        parser,
                        input@,
                        pos,
                        prev_cur,
                        new_pos,
                        (Text::Borrowed { start: pos, end: pos }),
                        prev_acc,
                        ends,
                        frags,
                        accs,
                        g_value,
                        merged,
                    );
                    ends = ends.push(new_pos);
                    frags = frags.push(g_value);
                    accs = accs.push(merged);
                }
                acc = merged;
                cur = new_pos;
            }
            Err(e) => {
                proof {
                    assert(g_step == Err::<(usize, Text), Error>(e));
                    assert(halts_at::<Text, F>(parser, cur));
                    assert(collects_text(
                        parser,
                        input@,
                        pos,
                        cur,
                        (Text::Borrowed { start: pos, end: pos }),
                        acc,
                    ));
                }
                return Ok((cur, acc));
            }
        }
    }
}

/// Sequential composition: `parser2` runs where `parser1` stopped; fails
/// as soon as either fails, leaving the failure to the caller.
pub fn pair<U, T, F: Fn(usize) -> Result<(usize, U), Error>, G: Fn(usize) -> Result<(usize, T), Error>>(
    pos: usize,
    parser1: F,
    parser2: G,
) -> (r: Result<(usize, (U, T)), Error>)
    requires
        call_requires(parser1, (pos,)),
        forall|r1: Result<(usize, U), Error>| #[trigger]
            call_ensures(parser1, (pos,), r1) ==> (r1 matches Ok(o) ==> call_requires(
                parser2,
                (o.0,),
            )),
    ensures
        r matches Ok((end, (first, second))) ==> exists|mid: usize|
            call_ensures(parser1, (pos,), Ok((mid, first))) && call_ensures(
                parser2,
                (mid,),
                Ok((end, second)),
            ),
        r matches Err(e) ==> call_ensures(parser1, (pos,), Err::<(usize, U), Error>(e)) || exists|
            mid: usize,
            u: U,
        |
            call_ensures(parser1, (pos,), Ok((mid, u))) && call_ensures(
                parser2,
                (mid,),
                Err::<(usize, T), Error>(e),
            ),
{
    let step1 = parser1(pos);
    let ghost g1 = step1;
    let (mid, first) = match step1 {
        Ok(o) => o,
        Err(e) => {
            proof {
                assert(g1 == Err::<(usize, U), Error>(e));
            }
            return Err(e);
        }
    };
    proof {
        assert(g1 == Ok::<(usize, U), Error>((mid, first)));
    }
    let step2 = parser2(mid);
    let ghost g2 = step2;
    let (end, second) = match step2 {
        Ok(o) => o,
        Err(e) => {
            proof {
                assert(g2 == Err::<(usize, T), Error>(e));
                assert(call_ensures(parser1, (pos,), Ok::<(usize, U), Error>((mid, first)))
                    && call_ensures(parser2, (mid,), Err::<(usize, T), Error>(e)));
            }
            return Err(e);
        }
    };
    proof {
        assert(g2 == Ok::<(usize, T), Error>((end, second)));
    }
    let res = Ok((end, (first, second)));
    let ghost gres = res;
    proof {
        assert(gres matches Ok((e2, (f2, s2))) && call_ensures(
            parser1,
            (pos,),
            Ok::<(usize, U), Error>((mid, f2)),
        ) && call_ensures(parser2, (mid,), Ok::<(usize, T), Error>((e2, s2))));
    }
    res
}

/// Sequential composition of three parsers, each starting where the
/// previous one stopped.
pub fn triplet<
    U,
    T,
    V,
    F: Fn(usize) -> Result<(usize, U), Error>,
    G: Fn(usize) -> Result<(usize, T), Error>,
    H: Fn(usize) -> Result<(usize, V), Error>,
>(
    pos: usize,
    parser1: F,
    parser2: G,
    parser3: H,
) -> (r: Result<(usize, (U, T, V)), Error>)
    requires
        call_requires(parser1, (pos,)),
        forall|r1: Result<(usize, U), Error>| #[trigger]
            call_ensures(parser1, (pos,), r1) ==> (r1 matches Ok(o) ==> call_requires(
                parser2,
                (o.0,),
            )),
        forall|mid: usize, r2: Result<(usize, T), Error>|
            (exists|u: U| call_ensures(parser1, (pos,), Ok((mid, u)))) && #[trigger] call_ensures(
                parser2,
                (mid,),
                r2,
            ) ==> (r2 matches Ok(o2) ==> call_requires(parser3, (o2.0,))),
    ensures
        r matches Ok((end, (first, second, third))) ==> exists|mid1: usize, mid2: usize|
            call_ensures(parser1, (pos,), Ok((mid1, first))) && call_ensures(
                parser2,
                (mid1,),
                Ok((mid2, second)),
            ) && call_ensures(parser3, (mid2,), Ok((end, third))),
        r matches Err(e) ==> call_ensures(parser1, (pos,), Err::<(usize, U), Error>(e)) || (exists|
            mid1: usize,
            u: U,
        |
            call_ensures(parser1, (pos,), Ok((mid1, u))) && call_ensures(
                parser2,
                (mid1,),
                Err::<(usize, T), Error>(e),
            )) || (exists|mid1: usize, u: U, mid2: usize, t: T|
            call_ensures(parser1, (pos,), Ok((mid1, u))) && call_ensures(
                parser2,
                (mid1,),
                Ok((mid2, t)),
            ) && call_ensures(parser3, (mid2,), Err::<(usize, V), Error>(e))),
{
    let step1 = parser1(pos);
    let ghost g1 = step1;
    let (mid1, first) = match step1 {
        Ok(o) => o,
        Err(e) => {
            proof {
                assert(g1 == Err::<(usize, U), Error>(e));
            }
            return Err(e);
        }
    };
    proof {
        assert(g1 == Ok::<(usize, U), Error>((mid1, first)));
    }
    let step2 = parser2(mid1);
    let ghost g2 = step2;
    let (mid2, second) = match step2 {
        Ok(o) => o,
        Err(e) => {
            proof {
                assert(g2 == Err::<(usize, T), Error>(e));
                assert(call_ensures(parser1, (pos,), Ok::<(usize, U), Error>((mid1, first)))
                    && call_ensures(parser2, (mid1,), Err::<(usize, T), Error>(e)));
            }
            return Err(e);
        }
    };
    proof {
        assert(g2 == Ok::<(usize, T), Error>((mid2, second)));
    }
    let step3 = parser3(mid2);
    let ghost g3 = step3;
    let (end, third) = match step3 {
        Ok(o) => o,
        Err(e) => {
            proof {
                assert(g3 == Err::<(usize, V), Error>(e));
                assert(call_ensures(parser1, (pos,), Ok::<(usize, U), Error>((mid1, first)))
                    && call_ensures(parser2, (mid1,), Ok::<(usize, T), Error>((mid2, second)))
                    && call_ensures(parser3, (mid2,), Err::<(usize, V), Error>(e)));
            }
            return Err(e);
        }
    };
    proof {
        assert(g3 == Ok::<(usize, V), Error>((end, third)));
    }
    let res = Ok((end, (first, second, third)));
    let ghost gres = res;
    proof {
        assert(gres matches Ok((e2, (f2, s2, t2))) && call_ensures(
            parser1,
            (pos,),
            Ok::<(usize, U), Error>((mid1, f2)),
        ) && call_ensures(parser2, (mid1,), Ok::<(usize, T), Error>((mid2, s2))) && call_ensures(
            parser3,
            (mid2,),
            Ok::<(usize, V), Error>((e2, t2)),
        ));
    }
    res
}

/// Sequential composition specialized for text: the two fragments are
/// merged into one text value.
pub fn collect_pair<F: Fn(usize) -> Result<(usize, Text), Error>, G: Fn(usize) -> Result<(usize, Text), Error>>(
    input: &[u8],
    pos: usize,
    parser1: F,
    parser2: G,
) -> (r: Result<(usize, Text), Error>)
    requires
        call_requires(parser1, (pos,)),
        forall|r1: Result<(usize, Text), Error>| #[trigger]
            call_ensures(parser1, (pos,), r1) ==> (r1 matches Ok(o) ==> o.1.wf(input@)
                && call_requires(parser2, (o.0,))),
        forall|q: usize, r2: Result<(usize, Text), Error>| #[trigger]
            call_ensures(parser2, (q,), r2) ==> (r2 matches Ok(o) ==> o.1.wf(input@)),
    ensures
        r matches Ok(o) ==> o.1.wf(input@) && exists|mid: usize, t1: Text, t2: Text|
            call_ensures(parser1, (pos,), Ok((mid, t1))) && call_ensures(
                parser2,
                (mid,),
                Ok((o.0, t2)),
            ) && crate::text::merge_rel(input@, t1, t2, o.1),
        r matches Err(e) ==> call_ensures(parser1, (pos,), Err::<(usize, Text), Error>(e)) || (
        exists|mid: usize, t1: Text|
            call_ensures(parser1, (pos,), Ok((mid, t1))) && call_ensures(
                parser2,
                (mid,),
                Err::<(usize, Text), Error>(e),
            )),
{
    let step1 = parser1(pos);
    let ghost g1 = step1;
    let (mid, first) = match step1 {
        Ok(o) => o,
        Err(e) => {
            proof {
                assert(g1 == Err::<(usize, Text), Error>(e));
            }
            return Err(e);
        }
    };
    proof {
        assert(g1 == Ok::<(usize, Text), Error>((mid, first)));
    }
    let step2 = parser2(mid);
    let ghost g2 = step2;
    let (end, second) = match step2 {
        Ok(o) => o,
        Err(e) => {
            proof {
                assert(g2 == Err::<(usize, Text), Error>(e));
                assert(call_ensures(parser1, (pos,), Ok::<(usize, Text), Error>((mid, first)))
                    && call_ensures(parser2, (mid,), Err::<(usize, Text), Error>(e)));
            }
            return Err(e);
        }
    };
    proof {
        assert(g2 == Ok::<(usize, Text), Error>((end, second)));
    }
    let ghost t1 = first;
    let ghost t2 = second;
    let merged = Text::merge(input, first, second);
    let res = Ok((end, merged));
    let ghost gres = res;
    proof {
        assert(gres matches Ok(o) && o.1.wf(input@) && call_ensures(
            parser1,
            (pos,),
            Ok::<(usize, Text), Error>((mid, t1)),
        ) && call_ensures(parser2, (mid,), Ok::<(usize, Text), Error>((o.0, t2)))
            && crate::text::merge_rel(input@, t1, t2, o.1));
    }
    res
}

/// Strips an exact literal prefix (fails with a tag mismatch if absent),
/// then delegates to `parser` on the remainder.
pub fn prefixed<T, F: Fn(usize) -> Result<(usize, T), Error>>(
    input: &[u8],
    pos: usize,
    parser: F,
    prefix: &[u8],
) -> (r: Result<(usize, T), Error>)
    requires
        pos <= input@.len(),
        starts_with_at(input@, pos as int, prefix@) ==> call_requires(
            parser,
            ((pos + prefix@.len()) as usize,),
        ),
    ensures
        !starts_with_at(input@, pos as int, prefix@) ==> r == Err::<(usize, T), Error>(
            Error::TagMismatch,
        ),
        starts_with_at(input@, pos as int, prefix@) ==> call_ensures(
            parser,
            ((pos + prefix@.len()) as usize,),
            r,
        ),
{
    match tag(input, pos, prefix) {
        Ok((new_pos, _)) => parser(new_pos),
        Err(e) => Err(e),
    }
}

} // verus!
