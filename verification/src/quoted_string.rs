use vstd::prelude::*;

use crate::Error;
use crate::classify::cfws;
use crate::classify::cfws_units_end;
use crate::classify::fws;
use crate::classify::fws_end;
use crate::classify::is_qtext_spec;
use crate::classify::is_vchar_spec;
use crate::classify::is_wsp_spec;
use crate::classify::lemma_run_end;
use crate::classify::run_end;
use crate::combinators::take_while1;
use crate::text::Text;

verus! {

/// Where a quoted pair that starts at `pos` ends: a backslash followed by
/// one visible or whitespace byte; the escaped byte is retained, the
/// backslash dropped.
pub open spec fn quoted_pair_end(s: Seq<u8>, pos: int) -> Option<int> {
    if pos + 1 < s.len() && s[pos] == 92 && (is_vchar_spec(s[pos + 1]) || is_wsp_spec(s[pos + 1])) {
        Some(pos + 2)
    } else {
        None
    }
}

/// Parses a quoted pair: a backslash and one visible or whitespace byte.
/// The escaped byte is returned as a borrowed span; the backslash is
/// dropped. A missing backslash is a recoverable tag mismatch; a bad or
/// missing escaped byte is a grammar violation.
pub fn quoted_pair(input: &[u8], pos: usize) -> (r: Result<(usize, Text), Error>)
    requires
        pos <= input@.len(),
    ensures
        r matches Ok(o) ==> {
            &&& quoted_pair_end(input@, pos as int) == Some(o.0 as int)
            &&& o.0 == pos + 2 <= input@.len()
            &&& o.1 == (Text::Borrowed { start: (pos + 1) as usize, end: (pos + 2) as usize })
        },
        r is Err <==> quoted_pair_end(input@, pos as int) is None,
        r matches Err(e) ==> if pos < input@.len() && input@[pos as int] == 92 {
            e == Error::GrammarViolation
        } else {
            e == Error::TagMismatch
        },
{
    if pos == input.len() || input[pos] != 92 {
        return Err(Error::TagMismatch);
    }
    if pos + 1 == input.len() {
        return Err(Error::GrammarViolation);
    }
    let c = input[pos + 1];
    if (33 <= c && c <= 126) || c == 32 || c == 9 {
        Ok((pos + 2, Text::Borrowed { start: pos + 1, end: pos + 2 }))
    } else {
        Err(Error::GrammarViolation)
    }
}

/// One pass of the quoted-string body: optional folding whitespace, then a
/// run of quoted-text bytes or one quoted pair. `Some` holds the position
/// after the pass and the text the pass retains; `None` means the body
/// ends here (whitespace consumed by the failed pass is left alone).
pub open spec fn qs_step(s: Seq<u8>, pos: int) -> Option<(int, Seq<u8>)> {
    let after_ws = match fws_end(s, pos) {
        Some(e) => e,
        None => pos,
    };
    let ws_frag = if fws_end(s, pos) is Some {
        s.subrange(pos, after_ws)
    } else {
        Seq::<u8>::empty()
    };
    let q = run_end(s, after_ws, |b: u8| is_qtext_spec(b));
    if q > after_ws {
        Some((q, ws_frag + s.subrange(after_ws, q)))
    } else {
        match quoted_pair_end(s, after_ws) {
            Some(e) => Some((e, ws_frag + seq![s[after_ws + 1]])),
            None => None,
        }
    }
}

/// The quoted-string body: repeated passes of `qs_step` until none
/// matches, the retained fragments concatenated in order.
pub open spec fn qs_loop(s: Seq<u8>, pos: int) -> (int, Seq<u8>)
    decreases s.len() - pos when 0 <= pos <= s.len()
{
    match qs_step(s, pos) {
        Some((e, frag)) => if pos < e <= s.len() {
            let rest = qs_loop(s, e);
            (rest.0, frag + rest.1)
        } else {
            (pos, Seq::<u8>::empty())
        },
        None => (pos, Seq::<u8>::empty()),
    }
}

/// The meaning of a quoted string at the start of `s`: optional leading
/// comments and folding whitespace (skipped), an opening quote, the body,
/// optional trailing folding whitespace (retained), a mandatory closing
/// quote, then optional comments and folding whitespace (skipped). `Ok`
/// holds the position after all of that and the retained text.
pub open spec fn qs_spec(s: Seq<u8>) -> Result<(int, Seq<u8>), Error> {
    let p0 = cfws_units_end(s, 0);
    if !(p0 < s.len() && s[p0] == 34) {
        Err(Error::GrammarViolation)
    } else {
        let body = qs_loop(s, p0 + 1);
        let p2 = match fws_end(s, body.0) {
            Some(e) => e,
            None => body.0,
        };
        let out = if fws_end(s, body.0) is Some {
            body.1 + s.subrange(body.0, p2)
        } else {
            body.1
        };
        if p2 < s.len() && s[p2] == 34 {
            Ok((cfws_units_end(s, p2 + 1), out))
        } else {
            Err(Error::GrammarViolation)
        }
    }
}

/// The position just after the opening quote: where the retained body
/// starts.
pub open spec fn qs_open(s: Seq<u8>) -> int {
    cfws_units_end(s, 0) + 1
}

/// The position of the closing quote, after the retained trailing folding
/// whitespace.
pub open spec fn qs_close(s: Seq<u8>) -> int {
    let body = qs_loop(s, qs_open(s));
    match fws_end(s, body.0) {
        Some(e) => e,
        None => body.0,
    }
}

/// Parses a quoted string at the start of `input`. The retained fragments
/// (folding whitespace, quoted-text runs, escaped bytes) are merged in
/// encounter order; the result and every error are exactly those of
/// `qs_spec`. The text stays a zero-copy Borrowed view over the whole span
/// between the quotes unless a quoted pair drops a backslash, which makes
/// the retained text strictly shorter than that span and the value Owned.
#[verifier::rlimit(60)]
pub fn quoted_string(input: &[u8]) -> (r: Result<(usize, Text), Error>)
    ensures
        r matches Ok(o) ==> {
            &&& qs_spec(input@) matches Ok(so) && so.0 == o.0 && so.1 == o.1.content(input@)
            &&& o.0 <= input@.len()
            &&& o.1.wf(input@)
            &&& o.1 is Borrowed ==> o.1->Borrowed_start == qs_open(input@) && o.1->Borrowed_end
                == qs_close(input@)
            &&& o.1 is Owned ==> o.1.content(input@).len() < qs_close(input@) - qs_open(input@)
        },
        r matches Err(e) ==> qs_spec(input@) == Err::<(int, Seq<u8>), Error>(e),
{
    let n = input.len();
    let p0 = match cfws(input, 0) {
        Ok((e, _)) => e,
        Err(_) => 0,
    };
    if !(p0 < n && input[p0] == 34) {
        return Err(Error::GrammarViolation);
    }
    let start = p0 + 1;
    let mut cur: usize = start;
    let mut output = Text::Borrowed { start, end: start };
    let mut done = false;
    proof {
        assert(output.content(input@) =~= Seq::<u8>::empty());
        assert(Seq::<u8>::empty() + qs_loop(input@, start as int).1 =~= qs_loop(
            input@,
            start as int,
        ).1);
    }
    while !done
        invariant
            start <= cur <= n == input@.len(),
            p0 < start <= n,
            output.wf(input@),
            output is Borrowed ==> output->Borrowed_start == start && output->Borrowed_end == cur,
            output is Owned ==> output.content(input@).len() < cur - start,
            qs_loop(input@, start as int).0 == qs_loop(input@, cur as int).0,
            qs_loop(input@, start as int).1 == output.content(input@) + qs_loop(
                input@,
                cur as int,
            ).1,
            done ==> qs_step(input@, cur as int) is None,
        decreases n - cur, (if done { 0int } else { 1int }),
    {
        let ghost pre_out = output.content(input@);
        let ghost rest_spec = qs_loop(input@, cur as int);
        let (after_ws, ws_opt) = match fws(input, cur) {
            Ok((e, t)) => (e, Some(t)),
            Err(_) => (cur, None),
        };
        let ghost ws_frag = if fws_end(input@, cur as int) is Some {
            input@.subrange(cur as int, after_ws as int)
        } else {
            Seq::<u8>::empty()
        };
        let qtext_cond = |b: u8| -> (res: bool)
            ensures
                res == is_qtext_spec(b),
            { b == 33 || (35 <= b && b <= 91) || (93 <= b && b <= 126) };
        let qt = take_while1(input, after_ws, qtext_cond);
        proof {
            lemma_run_end(input@, after_ws as int, |b: u8| is_qtext_spec(b));
        }
        match qt {
            Ok((q_end, q_text)) => {
                proof {
                    crate::classify::lemma_run_end_from_bounds(
                        input@,
                        after_ws as int,
                        q_end as int,
                        |b: u8| is_qtext_spec(b),
                    );
                    assert(qs_step(input@, cur as int) == Some(
                        (q_end as int, ws_frag + input@.subrange(after_ws as int, q_end as int)),
                    ));
                }
                let frag = match ws_opt {
                    Some(w) => Text::merge(input, w, q_text),
                    None => q_text,
                };
                proof {
                    assert(frag.content(input@) =~= ws_frag + input@.subrange(
                        after_ws as int,
                        q_end as int,
                    ));
                }
                output = Text::merge(input, output, frag);
                cur = q_end;
                proof {
                    assert(output.content(input@) =~= pre_out + frag.content(input@));
                    assert(pre_out + (frag.content(input@) + qs_loop(input@, cur as int).1) =~= (
                    pre_out + frag.content(input@)) + qs_loop(input@, cur as int).1);
                }
            }
            Err(_) => {
                match quoted_pair(input, after_ws) {
                    Ok((p_end, p_text)) => {
                        proof {
                            assert(p_text.content(input@) =~= seq![input@[after_ws + 1]]);
                            assert(qs_step(input@, cur as int) == Some(
                                (p_end as int, ws_frag + seq![input@[after_ws + 1]]),
                            ));
                        }
                        let frag = match ws_opt {
                            Some(w) => Text::merge(input, w, p_text),
                            None => p_text,
                        };
                        proof {
                            assert(frag.content(input@) =~= ws_frag + seq![input@[after_ws + 1]]);
                        }
                        output = Text::merge(input, output, frag);
                        cur = p_end;
                        proof {
                            assert(output.content(input@) =~= pre_out + frag.content(input@));
                            assert(pre_out + (frag.content(input@) + qs_loop(input@, cur as int).1)
                                =~= (pre_out + frag.content(input@)) + qs_loop(
                                input@,
                                cur as int,
                            ).1);
                        }
                    }
                    Err(_) => {
                        proof {
                            assert(qs_step(input@, cur as int) is None);
                            assert(pre_out + Seq::<u8>::empty() =~= pre_out);
                        }
                        done = true;
                    }
                }
            }
        }
    }
    proof {
        assert(qs_loop(input@, cur as int) == (cur as int, Seq::<u8>::empty()));
        assert(output.content(input@) + Seq::<u8>::empty() =~= output.content(input@));
    }
    let p2 = match fws(input, cur) {
        Ok((e, t)) => {
            output = Text::merge(input, output, t);
            e
        }
        Err(_) => cur,
    };
    if p2 < n && input[p2] == 34 {
        let p3 = p2 + 1;
        let p4 = match cfws(input, p3) {
            Ok((e, _)) => e,
            Err(_) => p3,
        };
        proof {
            assert(qs_open(input@) == start);
            assert(qs_close(input@) == p2 as int);
        }
        Ok((p4, output))
    } else {
        Err(Error::GrammarViolation)
    }
}

} // verus!
