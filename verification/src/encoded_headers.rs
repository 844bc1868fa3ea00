use vstd::prelude::*;

use crate::Error;
use crate::base64::b64_decode;
use crate::base64::decode_base64;
use crate::charsets::charset_decode;
use crate::charsets::decode_charset;
use crate::classify::especials;
use crate::classify::is_charset_byte;
use crate::classify::is_encoding_byte;
use crate::classify::is_etext_byte;
use crate::classify::lemma_run_end;
use crate::classify::run_end;
use crate::combinators::optional;
use crate::combinators::starts_with_at;
use crate::combinators::tag;
use crate::combinators::take_while1;
use crate::quoted_printables::qp_decode;
use crate::text::Text;
use crate::text::to_lower;

verus! {

/// ASCII-lowercased bytes.
pub open spec fn lower_seq(s: Seq<u8>) -> Seq<u8> {
    s.map_values(|b: u8| to_lower(b))
}

/// Parses a charset token: the longest non-empty run of charset bytes,
/// returned lowercased.
pub fn charset(input: &[u8], pos: usize) -> (r: Result<(usize, Text), Error>)
    requires
        pos <= input@.len(),
    ensures
        r matches Ok(o) ==> {
            &&& o.0 == run_end(input@, pos as int, |b: u8| is_charset_byte(b))
            &&& pos < o.0 <= input@.len()
            &&& o.1.wf(input@)
            &&& o.1.content(input@) == lower_seq(input@.subrange(pos as int, o.0 as int))
        },
        r is Err <==> run_end(input@, pos as int, |b: u8| is_charset_byte(b)) == pos,
        r matches Err(e) ==> e == Error::GrammarViolation,
{
    let cond = |b: u8| -> (res: bool)
        ensures
            res == is_charset_byte(b),
        { b > 32 && b < 127 && !especials(b) && b != 42 };
    let step = take_while1(input, pos, cond);
    match step {
        Ok((end, t)) => {
            proof {
                crate::classify::lemma_run_end_from_bounds(
                    input@,
                    pos as int,
                    end as int,
                    |b: u8| is_charset_byte(b),
                );
            }
            let lowered = Text::lowercase(input, t);
            proof {
                assert(lowered.content(input@) =~= lower_seq(
                    input@.subrange(pos as int, end as int),
                ));
            }
            Ok((end, lowered))
        }
        Err(e) => {
            proof {
                lemma_run_end(input@, pos as int, |b: u8| is_charset_byte(b));
            }
            Err(e)
        }
    }
}

/// Parses an encoding token: the longest non-empty run of encoding bytes,
/// returned lowercased.
pub fn encoding(input: &[u8], pos: usize) -> (r: Result<(usize, Text), Error>)
    requires
        pos <= input@.len(),
    ensures
        r matches Ok(o) ==> {
            &&& o.0 == run_end(input@, pos as int, |b: u8| is_encoding_byte(b))
            &&& pos < o.0 <= input@.len()
            &&& o.1.wf(input@)
            &&& o.1.content(input@) == lower_seq(input@.subrange(pos as int, o.0 as int))
        },
        r is Err <==> run_end(input@, pos as int, |b: u8| is_encoding_byte(b)) == pos,
        r matches Err(e) ==> e == Error::GrammarViolation,
{
    let cond = |b: u8| -> (res: bool)
        ensures
            res == is_encoding_byte(b),
        { b > 32 && b < 127 && !especials(b) };
    let step = take_while1(input, pos, cond);
    match step {
        Ok((end, t)) => {
            proof {
                crate::classify::lemma_run_end_from_bounds(
                    input@,
                    pos as int,
                    end as int,
                    |b: u8| is_encoding_byte(b),
                );
            }
            let lowered = Text::lowercase(input, t);
            proof {
                assert(lowered.content(input@) =~= lower_seq(
                    input@.subrange(pos as int, end as int),
                ));
            }
            Ok((end, lowered))
        }
        Err(e) => {
            proof {
                lemma_run_end(input@, pos as int, |b: u8| is_encoding_byte(b));
            }
            Err(e)
        }
    }
}

/// Parses the encoded-text payload: the longest non-empty run of printable
/// bytes other than `?`, returned as a borrowed span.
pub fn encoded_text(input: &[u8], pos: usize) -> (r: Result<(usize, Text), Error>)
    requires
        pos <= input@.len(),
    ensures
        r matches Ok(o) ==> {
            &&& o.0 == run_end(input@, pos as int, |b: u8| is_etext_byte(b))
            &&& pos < o.0 <= input@.len()
            &&& o.1 == (Text::Borrowed { start: pos, end: o.0 })
        },
        r is Err <==> run_end(input@, pos as int, |b: u8| is_etext_byte(b)) == pos,
        r matches Err(e) ==> e == Error::GrammarViolation,
{
    let cond = |b: u8| -> (res: bool)
        ensures
            res == is_etext_byte(b),
        { b > 32 && b <= 126 && b != 63 };
    let step = take_while1(input, pos, cond);
    match step {
        Ok((end, t)) => {
            proof {
                crate::classify::lemma_run_end_from_bounds(
                    input@,
                    pos as int,
                    end as int,
                    |b: u8| is_etext_byte(b),
                );
            }
            Ok((end, t))
        }
        Err(e) => {
            proof {
                lemma_run_end(input@, pos as int, |b: u8| is_etext_byte(b));
            }
            Err(e)
        }
    }
}

/// Where an optional language tag (`*` and an encoding token) that starts
/// at `pos` ends; `None` when there is none.
pub open spec fn language_end(s: Seq<u8>, pos: int) -> Option<int> {
    if pos < s.len() && s[pos] == 42 {
        let e = run_end(s, pos + 1, |b: u8| is_encoding_byte(b));
        if e > pos + 1 {
            Some(e)
        } else {
            None
        }
    } else {
        None
    }
}

/// Parses a language tag: a `*` marker and the tag itself, which is
/// returned (its caller discards it).
fn language(input: &[u8], pos: usize) -> (r: Result<(usize, Text), Error>)
    requires
        pos <= input@.len(),
    ensures
        r matches Ok(o) ==> language_end(input@, pos as int) == Some(o.0 as int) && pos < o.0
            <= input@.len(),
        r is Err <==> language_end(input@, pos as int) is None,
{
    let star = [42u8];
    let p1 = match tag(input, pos, star.as_slice()) {
        Ok((p1, _)) => p1,
        Err(e) => {
            proof {
                assert(star@ =~= seq![42u8]);
                if pos < input@.len() {
                    assert(input@.subrange(pos as int, pos + 1) =~= seq![input@[pos as int]]);
                }
            }
            return Err(e);
        }
    };
    proof {
        assert(star@ =~= seq![42u8]);
        assert(input@.subrange(pos as int, pos + 1) =~= seq![input@[pos as int]]);
    }
    encoding(input, p1)
}

/// The meaning of an encoded word at `pos`: the token grammar
/// `=?charset[*language]?encoding?text?=`, the transfer decode chosen by
/// the encoding token (`b` is base64, `q` is header quoted-printable, any
/// other is unsupported), and the charset decode of the result. `Ok` holds
/// the position past the closing `?=` and the decoded text as UTF-8 bytes.
pub open spec fn ew_spec(s: Seq<u8>, pos: int) -> Result<(int, Seq<u8>), Error> {
    if !starts_with_at(s, pos, seq![61u8, 63]) {
        Err(Error::TagMismatch)
    } else {
        let cs_start = pos + 2;
        let cs_end = run_end(s, cs_start, |b: u8| is_charset_byte(b));
        if cs_end == cs_start {
            Err(Error::GrammarViolation)
        } else {
            let charset_name = lower_seq(s.subrange(cs_start, cs_end));
            let after_lang = match language_end(s, cs_end) {
                Some(e) => e,
                None => cs_end,
            };
            if !starts_with_at(s, after_lang, seq![63u8]) {
                Err(Error::TagMismatch)
            } else {
                let enc_start = after_lang + 1;
                let enc_end = run_end(s, enc_start, |b: u8| is_encoding_byte(b));
                if enc_end == enc_start {
                    Err(Error::GrammarViolation)
                } else {
                    let enc_name = lower_seq(s.subrange(enc_start, enc_end));
                    if !starts_with_at(s, enc_end, seq![63u8]) {
                        Err(Error::TagMismatch)
                    } else {
                        let txt_start = enc_end + 1;
                        let txt_end = run_end(s, txt_start, |b: u8| is_etext_byte(b));
                        if txt_end == txt_start {
                            Err(Error::GrammarViolation)
                        } else if !starts_with_at(s, txt_end, seq![63u8, 61]) {
                            Err(Error::TagMismatch)
                        } else {
                            let data = s.subrange(txt_start, txt_end);
                            if enc_name == seq![98u8] {
                                match b64_decode(data) {
                                    Some(v) => match charset_decode(charset_name, v) {
                                        Ok(text) => Ok((txt_end + 2, text)),
                                        Err(e) => Err(e),
                                    },
                                    None => Err(Error::DecodeFailure),
                                }
                            } else if enc_name == seq![113u8] {
                                match charset_decode(charset_name, qp_decode(data)) {
                                    Ok(text) => Ok((txt_end + 2, text)),
                                    Err(e) => Err(e),
                                }
                            } else {
                                Err(Error::Unsupported)
                            }
                        }
                    }
                }
            }
        }
    }
}

/// Decodes one encoded word at the start of `input`. On success the
/// position past the closing `?=` and the decoded text are returned; the
/// result and every error are exactly those of `ew_spec`.
#[verifier::rlimit(60)]
pub fn encoded_word(input: &[u8]) -> (r: Result<(usize, Text), Error>)
    ensures
        r matches Ok(o) ==> {
            &&& ew_spec(input@, 0) matches Ok(so) && so.0 == o.0 && so.1 == o.1.content(input@)
            &&& o.0 <= input@.len()
            &&& o.1.wf(input@)
        },
        r matches Err(e) ==> ew_spec(input@, 0) == Err::<(int, Seq<u8>), Error>(e),
{
    let opener = [61u8, 63];
    proof {
        assert(opener@ =~= seq![61u8, 63]);
    }
    let p1 = match tag(input, 0, opener.as_slice()) {
        Ok((p, _)) => p,
        Err(e) => {
            return Err(e);
        }
    };
    let (cs_end, charset_text) = match charset(input, p1) {
        Ok(o) => o,
        Err(e) => {
            return Err(e);
        }
    };
    let language_parser = |q: usize| -> (rr: Result<(usize, Text), Error>)
        requires
            q <= input@.len(),
        ensures
            rr matches Ok(o2) ==> language_end(input@, q as int) == Some(o2.0 as int) && q < o2.0
                <= input@.len(),
            rr is Err <==> language_end(input@, q as int) is None,
        { language(input, q) };
    let (after_lang, _language_tag) = optional(cs_end, language_parser);
    proof {
        let al_spec = match language_end(input@, cs_end as int) {
            Some(e) => e,
            None => cs_end as int,
        };
        if _language_tag is Some {
            assert(after_lang == al_spec);
        } else {
            assert(language_end(input@, cs_end as int) is None);
            assert(after_lang == al_spec);
        }
    }
    let sep = [63u8];
    proof {
        assert(sep@ =~= seq![63u8]);
    }
    let p2 = match tag(input, after_lang, sep.as_slice()) {
        Ok((p, _)) => p,
        Err(e) => {
            return Err(e);
        }
    };
    let (enc_end, encoding_text) = match encoding(input, p2) {
        Ok(o) => o,
        Err(e) => {
            return Err(e);
        }
    };
    let p3 = match tag(input, enc_end, sep.as_slice()) {
        Ok((p, _)) => p,
        Err(e) => {
            return Err(e);
        }
    };
    let (txt_end, data_text) = match encoded_text(input, p3) {
        Ok(o) => o,
        Err(e) => {
            return Err(e);
        }
    };
    let closer = [63u8, 61];
    proof {
        assert(closer@ =~= seq![63u8, 61]);
    }
    let end_pos = match tag(input, txt_end, closer.as_slice()) {
        Ok((p, _)) => p,
        Err(e) => {
            return Err(e);
        }
    };
    let data = data_text.to_vec(input);
    let b_name = [98u8];
    let q_name = [113u8];
    proof {
        assert(b_name@ =~= seq![98u8]);
        assert(q_name@ =~= seq![113u8]);
    }
    let value: Vec<u8> = if encoding_text.eq_bytes(input, b_name.as_slice()) {
        match decode_base64(data.as_slice()) {
            Ok(v) => v,
            Err(e) => {
                return Err(e);
            }
        }
    } else if encoding_text.eq_bytes(input, q_name.as_slice()) {
        crate::quoted_printables::decode_header_qp(data.as_slice())
    } else {
        return Err(Error::Unsupported);
    };
    match decode_charset(input, &charset_text, value) {
        Ok(out) => Ok((end_pos, Text::Owned { bytes: out })),
        Err(e) => Err(e),
    }
}

} // verus!
