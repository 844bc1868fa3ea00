use vstd::prelude::*;

use crate::Error;

verus! {

/// Value of a base64 alphabet character, or -1 for any other byte.
pub open spec fn b64_val(c: u8) -> int {
    if 65 <= c && c <= 90 {
        c - 65
    } else if 97 <= c && c <= 122 {
        c - 97 + 26
    } else if 48 <= c && c <= 57 {
        c - 48 + 52
    } else if c == 43 {
        62
    } else if c == 47 {
        63
    } else {
        -1
    }
}

pub open spec fn is_b64_char(c: u8) -> bool {
    b64_val(c) >= 0
}

/// The three bytes encoded by one full group of four alphabet characters.
pub open spec fn b64_bytes3(a: u8, b: u8, c: u8, d: u8) -> Seq<u8> {
    seq![
        (b64_val(a) * 4 + b64_val(b) / 16) as u8,
        ((b64_val(b) % 16) * 16 + b64_val(c) / 4) as u8,
        ((b64_val(c) % 4) * 64 + b64_val(d)) as u8,
    ]
}

/// The bytes encoded by the final group of four, where `=` padding may
/// shorten the output to two bytes or one.
pub open spec fn b64_last_group(a: u8, b: u8, c: u8, d: u8) -> Option<Seq<u8>> {
    if is_b64_char(a) && is_b64_char(b) {
        if c == 61 && d == 61 {
            Some(seq![(b64_val(a) * 4 + b64_val(b) / 16) as u8])
        } else if is_b64_char(c) && d == 61 {
            Some(
                seq![
                    (b64_val(a) * 4 + b64_val(b) / 16) as u8,
                    ((b64_val(b) % 16) * 16 + b64_val(c) / 4) as u8,
                ],
            )
        } else if is_b64_char(c) && is_b64_char(d) {
            Some(b64_bytes3(a, b, c, d))
        } else {
            None
        }
    } else {
        None
    }
}

/// Base64 decoding: groups of four characters, `=` padding allowed in the
/// final group only; `None` on any other input.
pub open spec fn b64_decode(s: Seq<u8>) -> Option<Seq<u8>>
    decreases s.len(),
{
    if s.len() == 0 {
        Some(Seq::empty())
    } else if s.len() == 4 {
        b64_last_group(s[0], s[1], s[2], s[3])
    } else if s.len() < 4 {
        None
    } else if is_b64_char(s[0]) && is_b64_char(s[1]) && is_b64_char(s[2]) && is_b64_char(s[3]) {
        match b64_decode(s.skip(4)) {
            Some(rest) => Some(b64_bytes3(s[0], s[1], s[2], s[3]) + rest),
            None => None,
        }
    } else {
        None
    }
}

/// Prepends already-decoded bytes to a decode result that may have failed.
pub open spec fn opt_prepend(p: Seq<u8>, o: Option<Seq<u8>>) -> Option<Seq<u8>> {
    match o {
        Some(r) => Some(p + r),
        None => None,
    }
}

proof fn lemma_opt_prepend_empty(o: Option<Seq<u8>>)
    ensures
        opt_prepend(Seq::empty(), o) == o,
{
    match o {
        Some(r) => {
            assert(Seq::<u8>::empty() + r =~= r);
        },
        None => {},
    }
}

proof fn lemma_opt_prepend_assoc(p: Seq<u8>, q: Seq<u8>, o: Option<Seq<u8>>)
    ensures
        opt_prepend(p, opt_prepend(q, o)) == opt_prepend(p + q, o),
{
    match o {
        Some(r) => {
            assert(p + (q + r) =~= (p + q) + r);
        },
        None => {},
    }
}

/// Value of one base64 character, or `None` for any other byte.
fn b64_char_val(c: u8) -> (r: Option<u8>)
    ensures
        r is Some <==> is_b64_char(c),
        r matches Some(v) ==> v == b64_val(c),
{
    if 65 <= c && c <= 90 {
        Some(c - 65)
    } else if 97 <= c && c <= 122 {
        Some(c - 97 + 26)
    } else if 48 <= c && c <= 57 {
        Some(c - 48 + 52)
    } else if c == 43 {
        Some(62)
    } else if c == 47 {
        Some(63)
    } else {
        None
    }
}

/// Decodes a base64 payload; fails on a length that is not a multiple of
/// four, on a byte outside the alphabet, and on padding anywhere but the
/// end of the final group.
pub fn decode_base64(data: &[u8]) -> (r: Result<Vec<u8>, Error>)
    ensures
        r matches Ok(v) ==> b64_decode(data@) == Some(v@),
        r is Err <==> b64_decode(data@) is None,
        r matches Err(e) ==> e == Error::DecodeFailure,
{
    let n = data.len();
    if n % 4 != 0 {
        proof {
            lemma_b64_bad_len(data@);
        }
        return Err(Error::DecodeFailure);
    }
    let mut out: Vec<u8> = Vec::new();
    let mut i: usize = 0;
    proof {
        assert(data@.skip(0) =~= data@);
        lemma_opt_prepend_empty(b64_decode(data@));
    }
    while n - i > 4
        invariant
            i <= data@.len() == n,
            n % 4 == 0,
            i % 4 == 0,
            b64_decode(data@) == opt_prepend(out@, b64_decode(data@.skip(i as int))),
        decreases n - i,
    {
        let ghost pre = out@;
        let ghost rest_seq = data@.skip(i as int);
        let v0 = b64_char_val(data[i]);
        let v1 = b64_char_val(data[i + 1]);
        let v2 = b64_char_val(data[i + 2]);
        let v3 = b64_char_val(data[i + 3]);
        match (v0, v1, v2, v3) {
            (Some(a), Some(b), Some(c), Some(d)) => {
                out.push(a * 4 + b / 16);
                out.push((b % 16) * 16 + c / 4);
                out.push((c % 4) * 64 + d);
                proof {
                    assert(rest_seq.len() > 4);
                    assert(rest_seq[0] == data@[i as int] && rest_seq[1] == data@[i + 1]
                        && rest_seq[2] == data@[i + 2] && rest_seq[3] == data@[i + 3]);
                    assert(rest_seq.skip(4) =~= data@.skip(i + 4));
                    let g = b64_bytes3(data@[i as int], data@[i + 1], data@[i + 2], data@[i + 3]);
                    assert(out@ =~= pre + g);
                    assert(b64_decode(rest_seq) == opt_prepend(g, b64_decode(data@.skip(i + 4))));
                    lemma_opt_prepend_assoc(pre, g, b64_decode(data@.skip(i + 4)));
                }
                i += 4;
            }
            _ => {
                proof {
                    assert(rest_seq.len() > 4);
                    assert(b64_decode(rest_seq) is None);
                }
                return Err(Error::DecodeFailure);
            }
        }
    }
    if i == n {
        proof {
            assert(data@.skip(i as int) =~= Seq::<u8>::empty());
            assert(b64_decode(data@.skip(i as int)) == Some(Seq::<u8>::empty()));
            assert(out@ + Seq::<u8>::empty() =~= out@);
        }
        return Ok(out);
    }
    let ghost pre = out@;
    let ghost rest_seq = data@.skip(i as int);
    proof {
        assert(i + 4 == n);
        assert(rest_seq.len() == 4);
        assert(rest_seq[0] == data@[i as int] && rest_seq[1] == data@[i + 1] && rest_seq[2]
            == data@[i + 2] && rest_seq[3] == data@[i + 3]);
    }
    let v0 = b64_char_val(data[i]);
    let v1 = b64_char_val(data[i + 1]);
    let c2 = data[i + 2];
    let c3 = data[i + 3];
    let (a, b) = match (v0, v1) {
        (Some(a), Some(b)) => (a, b),
        _ => {
            return Err(Error::DecodeFailure);
        }
    };
    if c2 == 61 && c3 == 61 {
        out.push(a * 4 + b / 16);
        proof {
            assert(out@ =~= pre + b64_last_group(
                rest_seq[0],
                rest_seq[1],
                rest_seq[2],
                rest_seq[3],
            )->Some_0);
        }
        Ok(out)
    } else if c3 == 61 {
        match b64_char_val(c2) {
            Some(c) => {
                out.push(a * 4 + b / 16);
                out.push((b % 16) * 16 + c / 4);
                proof {
                    assert(out@ =~= pre + b64_last_group(
                        rest_seq[0],
                        rest_seq[1],
                        rest_seq[2],
                        rest_seq[3],
                    )->Some_0);
                }
                Ok(out)
            }
            None => Err(Error::DecodeFailure),
        }
    } else {
        match (b64_char_val(c2), b64_char_val(c3)) {
            (Some(c), Some(d)) => {
                out.push(a * 4 + b / 16);
                out.push((b % 16) * 16 + c / 4);
                out.push((c % 4) * 64 + d);
                proof {
                    assert(out@ =~= pre + b64_last_group(
                        rest_seq[0],
                        rest_seq[1],
                        rest_seq[2],
                        rest_seq[3],
                    )->Some_0);
                }
                Ok(out)
            }
            _ => Err(Error::DecodeFailure),
        }
    }
}

/// A length that is not a multiple of four never decodes.
proof fn lemma_b64_bad_len(s: Seq<u8>)
    requires
        s.len() % 4 != 0,
    ensures
        b64_decode(s) is None,
    decreases s.len(),
{
    if s.len() > 4 {
        if is_b64_char(s[0]) && is_b64_char(s[1]) && is_b64_char(s[2]) && is_b64_char(s[3]) {
            assert(s.skip(4).len() == s.len() - 4);
            lemma_b64_bad_len(s.skip(4));
        }
    }
}

} // verus!
