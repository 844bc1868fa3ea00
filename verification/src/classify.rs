use vstd::prelude::*;

use crate::Error;
use crate::text::Text;

verus! {

/// Whitespace: space or horizontal tab.
pub open spec fn is_wsp_spec(b: u8) -> bool {
    b == 32 || b == 9
}

/// Visible (printing) ASCII character.
pub open spec fn is_vchar_spec(b: u8) -> bool {
    33 <= b && b <= 126
}

/// Byte allowed unescaped inside a quoted string: every printing character
/// except the double quote and the backslash.
pub open spec fn is_qtext_spec(b: u8) -> bool {
    b == 33 || (35 <= b && b <= 91) || (93 <= b && b <= 126)
}

/// Delimiter bytes that may not appear in an encoded-word charset or
/// encoding token.
pub open spec fn is_especial_spec(b: u8) -> bool {
    b == 40 || b == 41 || b == 60 || b == 62 || b == 64 || b == 44 || b == 59 || b == 58 || b == 92
        || b == 34 || b == 47 || b == 91 || b == 93 || b == 63 || b == 46 || b == 61
}

/// Byte allowed in a charset token: printable ASCII that is neither an
/// especial delimiter nor the language-tag marker `*`.
pub open spec fn is_charset_byte(b: u8) -> bool {
    b > 32 && b < 127 && !is_especial_spec(b) && b != 42
}

/// Byte allowed in an encoding token: printable ASCII that is not an
/// especial delimiter.
pub open spec fn is_encoding_byte(b: u8) -> bool {
    b > 32 && b < 127 && !is_especial_spec(b)
}

/// Byte allowed in the encoded-text payload: printable ASCII except `?`.
pub open spec fn is_etext_byte(b: u8) -> bool {
    b > 32 && b <= 126 && b != 63
}

/// Byte allowed unescaped inside a comment: printing characters other than
/// parentheses and backslash, and the folding-whitespace bytes.
pub open spec fn is_comment_byte(b: u8) -> bool {
    b == 33 || (35 <= b && b <= 39) || (42 <= b && b <= 91) || (93 <= b && b <= 126) || is_wsp_spec(
        b,
    ) || b == 13 || b == 10
}

pub fn is_wsp(b: u8) -> (r: bool)
    ensures
        r == is_wsp_spec(b),
{
    b == 32 || b == 9
}

pub fn is_vchar(b: u8) -> (r: bool)
    ensures
        r == is_vchar_spec(b),
{
    33 <= b && b <= 126
}

pub fn is_qtext(b: u8) -> (r: bool)
    ensures
        r == is_qtext_spec(b),
{
    b == 33 || (35 <= b && b <= 91) || (93 <= b && b <= 126)
}

/// True iff the byte is one of the encoded-word delimiter characters.
pub fn especials(c: u8) -> (r: bool)
    ensures
        r == is_especial_spec(c),
{
    c == 40 || c == 41 || c == 60 || c == 62 || c == 64 || c == 44 || c == 59 || c == 58 || c == 92
        || c == 34 || c == 47 || c == 91 || c == 93 || c == 63 || c == 46 || c == 61
}

/// The end of the longest run of bytes satisfying `pred` that starts at
/// `pos`.
pub open spec fn run_end(s: Seq<u8>, pos: int, pred: spec_fn(u8) -> bool) -> int
    decreases s.len() - pos when 0 <= pos <= s.len()
{
    if pos >= s.len() {
        pos
    } else if pred(s[pos]) {
        run_end(s, pos + 1, pred)
    } else {
        pos
    }
}

/// Bounds and characterization of `run_end`.
pub proof fn lemma_run_end(s: Seq<u8>, pos: int, pred: spec_fn(u8) -> bool)
    requires
        0 <= pos <= s.len(),
    ensures
        pos <= run_end(s, pos, pred) <= s.len(),
        forall|j: int| pos <= j < run_end(s, pos, pred) ==> pred(s[j]),
        run_end(s, pos, pred) < s.len() ==> !pred(s[run_end(s, pos, pred)]),
    decreases s.len() - pos,
{
    if pos < s.len() && pred(s[pos]) {
        lemma_run_end(s, pos + 1, pred);
    }
}

/// A position that closes a maximal `pred` run is exactly `run_end`.
pub proof fn lemma_run_end_from_bounds(s: Seq<u8>, pos: int, end: int, pred: spec_fn(u8) -> bool)
    requires
        0 <= pos <= end <= s.len(),
        forall|j: int| pos <= j < end ==> pred(s[j]),
        end < s.len() ==> !pred(s[end]),
    ensures
        run_end(s, pos, pred) == end,
    decreases end - pos,
{
    if pos < end {
        lemma_run_end_from_bounds(s, pos + 1, end, pred);
    }
}

/// Where a folding-whitespace run that starts at `pos` ends: optionally
/// some whitespace and a line break, then at least one whitespace byte;
/// `None` when no such run starts at `pos`.
pub open spec fn fws_end(s: Seq<u8>, pos: int) -> Option<int> {
    let w1 = run_end(s, pos, |b: u8| is_wsp_spec(b));
    if w1 + 2 <= s.len() && s[w1] == 13 && s[w1 + 1] == 10 && run_end(
        s,
        w1 + 2,
        |b: u8| is_wsp_spec(b),
    ) > w1 + 2 {
        Some(run_end(s, w1 + 2, |b: u8| is_wsp_spec(b)))
    } else if w1 > pos {
        Some(w1)
    } else {
        None
    }
}

/// Parses folding whitespace: optional whitespace and a line break, then
/// at least one whitespace byte; the whole matched span is retained as
/// borrowed text. Fails when no folding whitespace starts at `pos`.
pub fn fws(input: &[u8], pos: usize) -> (r: Result<(usize, Text), Error>)
    requires
        pos <= input@.len(),
    ensures
        r matches Ok(o) ==> {
            &&& fws_end(input@, pos as int) == Some(o.0 as int)
            &&& pos < o.0 <= input@.len()
            &&& o.1 == (Text::Borrowed { start: pos, end: o.0 })
        },
        r is Err <==> fws_end(input@, pos as int) is None,
        r matches Err(e) ==> e == Error::GrammarViolation,
{
    let ghost wsp_pred = |b: u8| is_wsp_spec(b);
    let mut w1: usize = pos;
    while w1 < input.len() && (input[w1] == 32 || input[w1] == 9)
        invariant
            pos <= w1 <= input@.len(),
            forall|j: int| pos <= j < w1 ==> wsp_pred(input@[j]),
        decreases input@.len() - w1,
    {
        w1 += 1;
    }
    proof {
        lemma_run_end_from_bounds(input@, pos as int, w1 as int, wsp_pred);
    }
    if w1 < input.len() && input[w1] == 13 && w1 + 1 < input.len() && input[w1 + 1] == 10 {
        let start2 = w1 + 2;
        let mut w2: usize = start2;
        while w2 < input.len() && (input[w2] == 32 || input[w2] == 9)
            invariant
                start2 <= w2 <= input@.len(),
                forall|j: int| start2 <= j < w2 ==> wsp_pred(input@[j]),
            decreases input@.len() - w2,
        {
            w2 += 1;
        }
        proof {
            lemma_run_end_from_bounds(input@, start2 as int, w2 as int, wsp_pred);
        }
        if w2 > start2 {
            return Ok((w2, Text::Borrowed { start: pos, end: w2 }));
        }
    }
    if w1 > pos {
        Ok((w1, Text::Borrowed { start: pos, end: w1 }))
    } else {
        Err(Error::GrammarViolation)
    }
}

/// Scans the inside of a comment from `i` with `depth` open parentheses:
/// nested comments are tracked, a backslash escapes one visible or
/// whitespace byte. `Some` holds the position just past the comment's
/// closing parenthesis.
pub open spec fn comment_scan(s: Seq<u8>, i: int, depth: int) -> Option<int>
    decreases s.len() - i when 0 <= i <= s.len()
{
    if depth == 0 {
        Some(i)
    } else if i >= s.len() {
        None
    } else if s[i] == 40 {
        comment_scan(s, i + 1, depth + 1)
    } else if s[i] == 41 {
        comment_scan(s, i + 1, depth - 1)
    } else if s[i] == 92 {
        if i + 2 <= s.len() && (is_vchar_spec(s[i + 1]) || is_wsp_spec(s[i + 1])) {
            comment_scan(s, i + 2, depth)
        } else {
            None
        }
    } else if is_comment_byte(s[i]) {
        comment_scan(s, i + 1, depth)
    } else {
        None
    }
}

pub proof fn lemma_comment_scan_bounds(s: Seq<u8>, i: int, depth: int)
    requires
        0 <= i <= s.len(),
        depth >= 0,
    ensures
        comment_scan(s, i, depth) matches Some(e) ==> i <= e <= s.len(),
    decreases s.len() - i,
{
    if depth == 0 || i >= s.len() {
    } else if s[i] == 40 {
        lemma_comment_scan_bounds(s, i + 1, depth + 1);
    } else if s[i] == 41 {
        lemma_comment_scan_bounds(s, i + 1, depth - 1);
    } else if s[i] == 92 {
        if i + 2 <= s.len() && (is_vchar_spec(s[i + 1]) || is_wsp_spec(s[i + 1])) {
            lemma_comment_scan_bounds(s, i + 2, depth);
        }
    } else if is_comment_byte(s[i]) {
        lemma_comment_scan_bounds(s, i + 1, depth);
    }
}

/// Where a run of comments and folding whitespace that starts at `pos`
/// ends; equals `pos` when there is none.
pub open spec fn cfws_units_end(s: Seq<u8>, pos: int) -> int
    decreases s.len() - pos when 0 <= pos <= s.len()
{
    if pos < s.len() && s[pos] == 40 {
        match comment_scan(s, pos + 1, 1) {
            Some(e) => if pos < e <= s.len() {
                cfws_units_end(s, e)
            } else {
                pos
            },
            None => pos,
        }
    } else {
        match fws_end(s, pos) {
            Some(e) => if pos < e <= s.len() {
                cfws_units_end(s, e)
            } else {
                pos
            },
            None => pos,
        }
    }
}

/// Skips one comment: `pos` must sit on the opening parenthesis. Returns
/// the position just past the matching closing parenthesis.
fn skip_comment(input: &[u8], pos: usize) -> (r: Result<(usize, ()), Error>)
    requires
        pos < input@.len(),
        input@[pos as int] == 40,
    ensures
        r matches Ok(o) ==> comment_scan(input@, pos + 1, 1) == Some(o.0 as int) && pos < o.0
            <= input@.len(),
        r is Err <==> comment_scan(input@, pos + 1, 1) is None,
        r matches Err(e) ==> e == Error::GrammarViolation,
{
    let n = input.len();
    let mut i: usize = pos + 1;
    let mut depth: usize = 1;
    loop
        invariant
            pos + 1 <= i <= input@.len(),
            1 <= depth <= i - pos,
            comment_scan(input@, pos + 1, 1) == comment_scan(input@, i as int, depth as int),
        decreases input@.len() - i,
    {
        if i == n {
            return Err(Error::GrammarViolation);
        }
        let b = input[i];
        if b == 40 {
            depth += 1;
            i += 1;
        } else if b == 41 {
            depth -= 1;
            i += 1;
            if depth == 0 {
                proof {
                    lemma_comment_scan_bounds(input@, pos + 1, 1);
                }
                return Ok((i, ()));
            }
        } else if b == 92 {
            if i + 1 < input.len() && (is_vchar(input[i + 1]) || is_wsp(input[i + 1])) {
                i += 2;
            } else {
                return Err(Error::GrammarViolation);
            }
        } else if b == 33 || (35 <= b && b <= 39) || (42 <= b && b <= 91) || (93 <= b && b <= 126)
            || b == 32 || b == 9 || b == 13 || b == 10 {
            i += 1;
        } else {
            return Err(Error::GrammarViolation);
        }
    }
}

/// Skips a run of comments and folding whitespace; fails when there is
/// none at `pos` (the caller then goes on from `pos` unchanged).
pub fn cfws(input: &[u8], pos: usize) -> (r: Result<(usize, ()), Error>)
    requires
        pos <= input@.len(),
    ensures
        r matches Ok(o) ==> o.0 == cfws_units_end(input@, pos as int) && pos < o.0 <= input@.len(),
        r is Err <==> cfws_units_end(input@, pos as int) == pos,
        r matches Err(e) ==> e == Error::GrammarViolation,
{
    let mut cur: usize = pos;
    loop
        invariant
            pos <= cur <= input@.len(),
            cfws_units_end(input@, pos as int) == cfws_units_end(input@, cur as int),
        decreases input@.len() - cur,
    {
        if cur < input.len() && input[cur] == 40 {
            match skip_comment(input, cur) {
                Ok((e, _)) => {
                    cur = e;
                }
                Err(_) => {
                    if cur == pos {
                        return Err(Error::GrammarViolation);
                    }
                    return Ok((cur, ()));
                }
            }
        } else {
            match fws(input, cur) {
                Ok((e, _)) => {
                    cur = e;
                }
                Err(_) => {
                    if cur == pos {
                        return Err(Error::GrammarViolation);
                    }
                    return Ok((cur, ()));
                }
            }
        }
    }
}

} // verus!
