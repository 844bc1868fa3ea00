use vstd::prelude::*;

use crate::Error;
use crate::text::Text;

verus! {

/// UTF-8 continuation byte.
pub open spec fn is_cont(b: u8) -> bool {
    128 <= b && b <= 191
}

/// Strict UTF-8 validity: overlong forms, surrogate code points and
/// anything past U+10FFFF are rejected.
pub open spec fn utf8_ok(s: Seq<u8>) -> bool
    decreases s.len(),
{
    if s.len() == 0 {
        true
    } else {
        let b0 = s[0];
        if b0 < 128 {
            utf8_ok(s.skip(1))
        } else if 194 <= b0 && b0 <= 223 {
            s.len() >= 2 && is_cont(s[1]) && utf8_ok(s.skip(2))
        } else if b0 == 224 {
            s.len() >= 3 && 160 <= s[1] && s[1] <= 191 && is_cont(s[2]) && utf8_ok(s.skip(3))
        } else if (225 <= b0 && b0 <= 236) || b0 == 238 || b0 == 239 {
            s.len() >= 3 && is_cont(s[1]) && is_cont(s[2]) && utf8_ok(s.skip(3))
        } else if b0 == 237 {
            s.len() >= 3 && 128 <= s[1] && s[1] <= 159 && is_cont(s[2]) && utf8_ok(s.skip(3))
        } else if b0 == 240 {
            s.len() >= 4 && 144 <= s[1] && s[1] <= 191 && is_cont(s[2]) && is_cont(s[3])
                && utf8_ok(s.skip(4))
        } else if 241 <= b0 && b0 <= 243 {
            s.len() >= 4 && is_cont(s[1]) && is_cont(s[2]) && is_cont(s[3]) && utf8_ok(s.skip(4))
        } else if b0 == 244 {
            s.len() >= 4 && 128 <= s[1] && s[1] <= 143 && is_cont(s[2]) && is_cont(s[3])
                && utf8_ok(s.skip(4))
        } else {
            false
        }
    }
}

/// True iff `v` is valid UTF-8.
pub fn validate_utf8(v: &[u8]) -> (r: bool)
    ensures
        r == utf8_ok(v@),
{
    let n = v.len();
    let mut i: usize = 0;
    proof {
        assert(v@.skip(0) =~= v@);
    }
    while i < n
        invariant
            i <= n == v@.len(),
            utf8_ok(v@) == utf8_ok(v@.skip(i as int)),
        decreases n - i,
    {
        let ghost rest = v@.skip(i as int);
        let b0 = v[i];
        if b0 < 128 {
            proof {
                assert(rest.skip(1) =~= v@.skip(i + 1));
            }
            i += 1;
        } else if 194 <= b0 && b0 <= 223 {
            if n - i >= 2 && 128 <= v[i + 1] && v[i + 1] <= 191 {
                proof {
                    assert(rest.skip(2) =~= v@.skip(i + 2));
                }
                i += 2;
            } else {
                return false;
            }
        } else if b0 == 224 {
            if n - i >= 3 && 160 <= v[i + 1] && v[i + 1] <= 191 && 128 <= v[i + 2] && v[i + 2]
                <= 191 {
                proof {
                    assert(rest.skip(3) =~= v@.skip(i + 3));
                }
                i += 3;
            } else {
                return false;
            }
        } else if (225 <= b0 && b0 <= 236) || b0 == 238 || b0 == 239 {
            if n - i >= 3 && 128 <= v[i + 1] && v[i + 1] <= 191 && 128 <= v[i + 2] && v[i + 2]
                <= 191 {
                proof {
                    assert(rest.skip(3) =~= v@.skip(i + 3));
                }
                i += 3;
            } else {
                return false;
            }
        } else if b0 == 237 {
            if n - i >= 3 && 128 <= v[i + 1] && v[i + 1] <= 159 && 128 <= v[i + 2] && v[i + 2]
                <= 191 {
                proof {
                    assert(rest.skip(3) =~= v@.skip(i + 3));
                }
                i += 3;
            } else {
                return false;
            }
        } else if b0 == 240 {
            if n - i >= 4 && 144 <= v[i + 1] && v[i + 1] <= 191 && 128 <= v[i + 2] && v[i + 2]
                <= 191 && 128 <= v[i + 3] && v[i + 3] <= 191 {
                proof {
                    assert(rest.skip(4) =~= v@.skip(i + 4));
                }
                i += 4;
            } else {
                return false;
            }
        } else if 241 <= b0 && b0 <= 243 {
            if n - i >= 4 && 128 <= v[i + 1] && v[i + 1] <= 191 && 128 <= v[i + 2] && v[i + 2]
                <= 191 && 128 <= v[i + 3] && v[i + 3] <= 191 {
                proof {
                    assert(rest.skip(4) =~= v@.skip(i + 4));
                }
                i += 4;
            } else {
                return false;
            }
        } else if b0 == 244 {
            if n - i >= 4 && 128 <= v[i + 1] && v[i + 1] <= 143 && 128 <= v[i + 2] && v[i + 2]
                <= 191 && 128 <= v[i + 3] && v[i + 3] <= 191 {
                proof {
                    assert(rest.skip(4) =~= v@.skip(i + 4));
                }
                i += 4;
            } else {
                return false;
            }
        } else {
            return false;
        }
    }
    proof {
        assert(v@.skip(i as int) =~= Seq::<u8>::empty());
    }
    true
}

/// What textcode's decoder for iso-8859-1 yields, as UTF-8 bytes; a function
/// of the input bytes alone.
pub uninterp spec fn utf8_of_iso_8859_1(v: Seq<u8>) -> Seq<u8>;

/// Relies on textcode::decode with textcode::Iso8859_1: a total decoding
/// function of the input bytes alone; ASCII passes through, bytes 0xA0 and
/// above go through a fixed table (unmapped cells yield the replacement
/// character), bytes 0x80 to 0x9F are dropped; an empty input writes
/// nothing.
#[verifier::external_body]
fn decode_iso_8859_1(v: &Vec<u8>) -> (r: Vec<u8>)
    ensures
        r@ == utf8_of_iso_8859_1(v@),
        v@.len() == 0 ==> r@.len() == 0,
{
    textcode::decode::<textcode::Iso8859_1>(v).into_bytes()
}

/// What textcode's decoder for iso-8859-2 yields, as UTF-8 bytes; a function
/// of the input bytes alone.
pub uninterp spec fn utf8_of_iso_8859_2(v: Seq<u8>) -> Seq<u8>;

/// Relies on textcode::decode with textcode::Iso8859_2: a total decoding
/// function of the input bytes alone; ASCII passes through, bytes 0xA0 and
/// above go through a fixed table (unmapped cells yield the replacement
/// character), bytes 0x80 to 0x9F are dropped; an empty input writes
/// nothing.
#[verifier::external_body]
fn decode_iso_8859_2(v: &Vec<u8>) -> (r: Vec<u8>)
    ensures
        r@ == utf8_of_iso_8859_2(v@),
        v@.len() == 0 ==> r@.len() == 0,
{
    textcode::decode::<textcode::Iso8859_2>(v).into_bytes()
}

/// What textcode's decoder for iso-8859-3 yields, as UTF-8 bytes; a function
/// of the input bytes alone.
pub uninterp spec fn utf8_of_iso_8859_3(v: Seq<u8>) -> Seq<u8>;

/// Relies on textcode::decode with textcode::Iso8859_3: a total decoding
/// function of the input bytes alone; ASCII passes through, bytes 0xA0 and
/// above go through a fixed table (unmapped cells yield the replacement
/// character), bytes 0x80 to 0x9F are dropped; an empty input writes
/// nothing.
#[verifier::external_body]
fn decode_iso_8859_3(v: &Vec<u8>) -> (r: Vec<u8>)
    ensures
        r@ == utf8_of_iso_8859_3(v@),
        v@.len() == 0 ==> r@.len() == 0,
{
    textcode::decode::<textcode::Iso8859_3>(v).into_bytes()
}

/// What textcode's decoder for iso-8859-4 yields, as UTF-8 bytes; a function
/// of the input bytes alone.
pub uninterp spec fn utf8_of_iso_8859_4(v: Seq<u8>) -> Seq<u8>;

/// Relies on textcode::decode with textcode::Iso8859_4: a total decoding
/// function of the input bytes alone; ASCII passes through, bytes 0xA0 and
/// above go through a fixed table (unmapped cells yield the replacement
/// character), bytes 0x80 to 0x9F are dropped; an empty input writes
/// nothing.
#[verifier::external_body]
fn decode_iso_8859_4(v: &Vec<u8>) -> (r: Vec<u8>)
    ensures
        r@ == utf8_of_iso_8859_4(v@),
        v@.len() == 0 ==> r@.len() == 0,
{
    textcode::decode::<textcode::Iso8859_4>(v).into_bytes()
}

/// What textcode's decoder for iso-8859-5 yields, as UTF-8 bytes; a function
/// of the input bytes alone.
pub uninterp spec fn utf8_of_iso_8859_5(v: Seq<u8>) -> Seq<u8>;

/// Relies on textcode::decode with textcode::Iso8859_5: a total decoding
/// function of the input bytes alone; ASCII passes through, bytes 0xA0 and
/// above go through a fixed table (unmapped cells yield the replacement
/// character), bytes 0x80 to 0x9F are dropped; an empty input writes
/// nothing.
#[verifier::external_body]
fn decode_iso_8859_5(v: &Vec<u8>) -> (r: Vec<u8>)
    ensures
        r@ == utf8_of_iso_8859_5(v@),
        v@.len() == 0 ==> r@.len() == 0,
{
    textcode::decode::<textcode::Iso8859_5>(v).into_bytes()
}

/// What textcode's decoder for iso-8859-6 yields, as UTF-8 bytes; a function
/// of the input bytes alone.
pub uninterp spec fn utf8_of_iso_8859_6(v: Seq<u8>) -> Seq<u8>;

/// Relies on textcode::decode with textcode::Iso8859_6: a total decoding
/// function of the input bytes alone; ASCII passes through, bytes 0xA0 and
/// above go through a fixed table (unmapped cells yield the replacement
/// character), bytes 0x80 to 0x9F are dropped; an empty input writes
/// nothing.
#[verifier::external_body]
fn decode_iso_8859_6(v: &Vec<u8>) -> (r: Vec<u8>)
    ensures
        r@ == utf8_of_iso_8859_6(v@),
        v@.len() == 0 ==> r@.len() == 0,
{
    textcode::decode::<textcode::Iso8859_6>(v).into_bytes()
}

/// What textcode's decoder for iso-8859-7 yields, as UTF-8 bytes; a function
/// of the input bytes alone.
pub uninterp spec fn utf8_of_iso_8859_7(v: Seq<u8>) -> Seq<u8>;

/// Relies on textcode::decode with textcode::Iso8859_7: a total decoding
/// function of the input bytes alone; ASCII passes through, bytes 0xA0 and
/// above go through a fixed table (unmapped cells yield the replacement
/// character), bytes 0x80 to 0x9F are dropped; an empty input writes
/// nothing.
#[verifier::external_body]
fn decode_iso_8859_7(v: &Vec<u8>) -> (r: Vec<u8>)
    ensures
        r@ == utf8_of_iso_8859_7(v@),
        v@.len() == 0 ==> r@.len() == 0,
{
    textcode::decode::<textcode::Iso8859_7>(v).into_bytes()
}

/// What textcode's decoder for iso-8859-8 yields, as UTF-8 bytes; a function
/// of the input bytes alone.
pub uninterp spec fn utf8_of_iso_8859_8(v: Seq<u8>) -> Seq<u8>;

/// Relies on textcode::decode with textcode::Iso8859_8: a total decoding
/// function of the input bytes alone; ASCII passes through, bytes 0xA0 and
/// above go through a fixed table (unmapped cells yield the replacement
/// character), bytes 0x80 to 0x9F are dropped; an empty input writes
/// nothing.
#[verifier::external_body]
fn decode_iso_8859_8(v: &Vec<u8>) -> (r: Vec<u8>)
    ensures
        r@ == utf8_of_iso_8859_8(v@),
        v@.len() == 0 ==> r@.len() == 0,
{
    textcode::decode::<textcode::Iso8859_8>(v).into_bytes()
}

/// What textcode's decoder for iso-8859-9 yields, as UTF-8 bytes; a function
/// of the input bytes alone.
pub uninterp spec fn utf8_of_iso_8859_9(v: Seq<u8>) -> Seq<u8>;

/// Relies on textcode::decode with textcode::Iso8859_9: a total decoding
/// function of the input bytes alone; ASCII passes through, bytes 0xA0 and
/// above go through a fixed table (unmapped cells yield the replacement
/// character), bytes 0x80 to 0x9F are dropped; an empty input writes
/// nothing.
#[verifier::external_body]
fn decode_iso_8859_9(v: &Vec<u8>) -> (r: Vec<u8>)
    ensures
        r@ == utf8_of_iso_8859_9(v@),
        v@.len() == 0 ==> r@.len() == 0,
{
    textcode::decode::<textcode::Iso8859_9>(v).into_bytes()
}

/// What textcode's decoder for iso-8859-10 yields, as UTF-8 bytes; a function
/// of the input bytes alone.
pub uninterp spec fn utf8_of_iso_8859_10(v: Seq<u8>) -> Seq<u8>;

/// Relies on textcode::decode with textcode::Iso8859_10: a total decoding
/// function of the input bytes alone; ASCII passes through, bytes 0xA0 and
/// above go through a fixed table (unmapped cells yield the replacement
/// character), bytes 0x80 to 0x9F are dropped; an empty input writes
/// nothing.
#[verifier::external_body]
fn decode_iso_8859_10(v: &Vec<u8>) -> (r: Vec<u8>)
    ensures
        r@ == utf8_of_iso_8859_10(v@),
        v@.len() == 0 ==> r@.len() == 0,
{
    textcode::decode::<textcode::Iso8859_10>(v).into_bytes()
}

/// What textcode's decoder for iso-8859-11 yields, as UTF-8 bytes; a function
/// of the input bytes alone.
pub uninterp spec fn utf8_of_iso_8859_11(v: Seq<u8>) -> Seq<u8>;

/// Relies on textcode::decode with textcode::Iso8859_11: a total decoding
/// function of the input bytes alone; ASCII passes through, bytes 0xA0 and
/// above go through a fixed table (unmapped cells yield the replacement
/// character), bytes 0x80 to 0x9F are dropped; an empty input writes
/// nothing.
#[verifier::external_body]
fn decode_iso_8859_11(v: &Vec<u8>) -> (r: Vec<u8>)
    ensures
        r@ == utf8_of_iso_8859_11(v@),
        v@.len() == 0 ==> r@.len() == 0,
{
    textcode::decode::<textcode::Iso8859_11>(v).into_bytes()
}

/// What textcode's decoder for iso-8859-13 yields, as UTF-8 bytes; a function
/// of the input bytes alone.
pub uninterp spec fn utf8_of_iso_8859_13(v: Seq<u8>) -> Seq<u8>;

/// Relies on textcode::decode with textcode::Iso8859_13: a total decoding
/// function of the input bytes alone; ASCII passes through, bytes 0xA0 and
/// above go through a fixed table (unmapped cells yield the replacement
/// character), bytes 0x80 to 0x9F are dropped; an empty input writes
/// nothing.
#[verifier::external_body]
fn decode_iso_8859_13(v: &Vec<u8>) -> (r: Vec<u8>)
    ensures
        r@ == utf8_of_iso_8859_13(v@),
        v@.len() == 0 ==> r@.len() == 0,
{
    textcode::decode::<textcode::Iso8859_13>(v).into_bytes()
}

/// What textcode's decoder for iso-8859-14 yields, as UTF-8 bytes; a function
/// of the input bytes alone.
pub uninterp spec fn utf8_of_iso_8859_14(v: Seq<u8>) -> Seq<u8>;

/// Relies on textcode::decode with textcode::Iso8859_14: a total decoding
/// function of the input bytes alone; ASCII passes through, bytes 0xA0 and
/// above go through a fixed table (unmapped cells yield the replacement
/// character), bytes 0x80 to 0x9F are dropped; an empty input writes
/// nothing.
#[verifier::external_body]
fn decode_iso_8859_14(v: &Vec<u8>) -> (r: Vec<u8>)
    ensures
        r@ == utf8_of_iso_8859_14(v@),
        v@.len() == 0 ==> r@.len() == 0,
{
    textcode::decode::<textcode::Iso8859_14>(v).into_bytes()
}

/// What textcode's decoder for iso-8859-15 yields, as UTF-8 bytes; a function
/// of the input bytes alone.
pub uninterp spec fn utf8_of_iso_8859_15(v: Seq<u8>) -> Seq<u8>;

/// Relies on textcode::decode with textcode::Iso8859_15: a total decoding
/// function of the input bytes alone; ASCII passes through, bytes 0xA0 and
/// above go through a fixed table (unmapped cells yield the replacement
/// character), bytes 0x80 to 0x9F are dropped; an empty input writes
/// nothing.
#[verifier::external_body]
fn decode_iso_8859_15(v: &Vec<u8>) -> (r: Vec<u8>)
    ensures
        r@ == utf8_of_iso_8859_15(v@),
        v@.len() == 0 ==> r@.len() == 0,
{
    textcode::decode::<textcode::Iso8859_15>(v).into_bytes()
}

/// What textcode's decoder for iso-8859-16 yields, as UTF-8 bytes; a function
/// of the input bytes alone.
pub uninterp spec fn utf8_of_iso_8859_16(v: Seq<u8>) -> Seq<u8>;

/// Relies on textcode::decode with textcode::Iso8859_16: a total decoding
/// function of the input bytes alone; ASCII passes through, bytes 0xA0 and
/// above go through a fixed table (unmapped cells yield the replacement
/// character), bytes 0x80 to 0x9F are dropped; an empty input writes
/// nothing.
#[verifier::external_body]
fn decode_iso_8859_16(v: &Vec<u8>) -> (r: Vec<u8>)
    ensures
        r@ == utf8_of_iso_8859_16(v@),
        v@.len() == 0 ==> r@.len() == 0,
{
    textcode::decode::<textcode::Iso8859_16>(v).into_bytes()
}

/// What textcode's decoder for iso-6937 yields, as UTF-8 bytes; a function
/// of the input bytes alone.
pub uninterp spec fn utf8_of_iso_6937(v: Seq<u8>) -> Seq<u8>;

/// Relies on textcode::decode with textcode::Iso6937: a total decoding
/// function of the input bytes alone, driven by fixed tables; an empty
/// input writes nothing.
#[verifier::external_body]
fn decode_iso_6937(v: &Vec<u8>) -> (r: Vec<u8>)
    ensures
        r@ == utf8_of_iso_6937(v@),
        v@.len() == 0 ==> r@.len() == 0,
{
    textcode::decode::<textcode::Iso6937>(v).into_bytes()
}

/// What textcode's decoder for gb2312 yields, as UTF-8 bytes; a function
/// of the input bytes alone.
pub uninterp spec fn utf8_of_gb2312(v: Seq<u8>) -> Seq<u8>;

/// Relies on textcode::decode with textcode::Gb2312: a total decoding
/// function of the input bytes alone, driven by fixed tables; an empty
/// input writes nothing.
#[verifier::external_body]
fn decode_gb2312(v: &Vec<u8>) -> (r: Vec<u8>)
    ensures
        r@ == utf8_of_gb2312(v@),
        v@.len() == 0 ==> r@.len() == 0,
{
    textcode::decode::<textcode::Gb2312>(v).into_bytes()
}

/// Maps transfer-decoded bytes to text under the named (already
/// lowercased) charset: `utf-8` and `us-ascii` are validated and passed
/// through, each table-driven charset is decoded to UTF-8 bytes, and an
/// unknown name is an unsupported-value failure.
pub open spec fn charset_decode(name: Seq<u8>, v: Seq<u8>) -> Result<Seq<u8>, Error> {
    if name == seq![117u8, 116, 102, 45, 56] || name == seq![117u8, 115, 45, 97, 115, 99, 105, 105] {
        if utf8_ok(v) {
            Ok(v)
        } else {
            Err(Error::DecodeFailure)
        }
    } else if name == seq![105u8, 115, 111, 45, 56, 56, 53, 57, 45, 49] {
        Ok(utf8_of_iso_8859_1(v))
    } else if name == seq![105u8, 115, 111, 45, 56, 56, 53, 57, 45, 50] {
        Ok(utf8_of_iso_8859_2(v))
    } else if name == seq![105u8, 115, 111, 45, 56, 56, 53, 57, 45, 51] {
        Ok(utf8_of_iso_8859_3(v))
    } else if name == seq![105u8, 115, 111, 45, 56, 56, 53, 57, 45, 52] {
        Ok(utf8_of_iso_8859_4(v))
    } else if name == seq![105u8, 115, 111, 45, 56, 56, 53, 57, 45, 53] {
        Ok(utf8_of_iso_8859_5(v))
    } else if name == seq![105u8, 115, 111, 45, 56, 56, 53, 57, 45, 54] {
        Ok(utf8_of_iso_8859_6(v))
    } else if name == seq![105u8, 115, 111, 45, 56, 56, 53, 57, 45, 55] {
        Ok(utf8_of_iso_8859_7(v))
    } else if name == seq![105u8, 115, 111, 45, 56, 56, 53, 57, 45, 56] {
        Ok(utf8_of_iso_8859_8(v))
    } else if name == seq![105u8, 115, 111, 45, 56, 56, 53, 57, 45, 57] {
        Ok(utf8_of_iso_8859_9(v))
    } else if name == seq![105u8, 115, 111, 45, 56, 56, 53, 57, 45, 49, 48] {
        Ok(utf8_of_iso_8859_10(v))
    } else if name == seq![105u8, 115, 111, 45, 56, 56, 53, 57, 45, 49, 49] {
        Ok(utf8_of_iso_8859_11(v))
    } else if name == seq![105u8, 115, 111, 45, 56, 56, 53, 57, 45, 49, 51] {
        Ok(utf8_of_iso_8859_13(v))
    } else if name == seq![105u8, 115, 111, 45, 56, 56, 53, 57, 45, 49, 52] {
        Ok(utf8_of_iso_8859_14(v))
    } else if name == seq![105u8, 115, 111, 45, 56, 56, 53, 57, 45, 49, 53] {
        Ok(utf8_of_iso_8859_15(v))
    } else if name == seq![105u8, 115, 111, 45, 56, 56, 53, 57, 45, 49, 54] {
        Ok(utf8_of_iso_8859_16(v))
    } else if name == seq![105u8, 115, 111, 45, 54, 57, 51, 55] {
        Ok(utf8_of_iso_6937(v))
    } else if name == seq![103u8, 98, 50, 51, 49, 50] {
        Ok(utf8_of_gb2312(v))
    } else {
        Err(Error::Unsupported)
    }
}

/// Decodes `value` under the charset whose (lowercased) name `name`
/// denotes in `buf`.
pub fn decode_charset(buf: &[u8], name: &Text, value: Vec<u8>) -> (r: Result<Vec<u8>, Error>)
    requires
        name.wf(buf@),
    ensures
        r matches Ok(v2) ==> charset_decode(name.content(buf@), value@) == Ok::<Seq<u8>, Error>(
            v2@,
        ),
        r matches Err(e) ==> charset_decode(name.content(buf@), value@) == Err::<Seq<u8>, Error>(
            e,
        ),
{
    if name.eq_bytes(buf, [117u8, 116, 102, 45, 56].as_slice()) || name.eq_bytes(
        buf,
        [117u8, 115, 45, 97, 115, 99, 105, 105].as_slice(),
    ) {
        if validate_utf8(value.as_slice()) {
            Ok(value)
        } else {
            Err(Error::DecodeFailure)
        }
    } else if name.eq_bytes(buf, [105u8, 115, 111, 45, 56, 56, 53, 57, 45, 49].as_slice()) {
        let out = decode_iso_8859_1(&value);
        Ok(out)
    } else if name.eq_bytes(buf, [105u8, 115, 111, 45, 56, 56, 53, 57, 45, 50].as_slice()) {
        let out = decode_iso_8859_2(&value);
        Ok(out)
    } else if name.eq_bytes(buf, [105u8, 115, 111, 45, 56, 56, 53, 57, 45, 51].as_slice()) {
        let out = decode_iso_8859_3(&value);
        Ok(out)
    } else if name.eq_bytes(buf, [105u8, 115, 111, 45, 56, 56, 53, 57, 45, 52].as_slice()) {
        let out = decode_iso_8859_4(&value);
        Ok(out)
    } else if name.eq_bytes(buf, [105u8, 115, 111, 45, 56, 56, 53, 57, 45, 53].as_slice()) {
        let out = decode_iso_8859_5(&value);
        Ok(out)
    } else if name.eq_bytes(buf, [105u8, 115, 111, 45, 56, 56, 53, 57, 45, 54].as_slice()) {
        let out = decode_iso_8859_6(&value);
        Ok(out)
    } else if name.eq_bytes(buf, [105u8, 115, 111, 45, 56, 56, 53, 57, 45, 55].as_slice()) {
        let out = decode_iso_8859_7(&value);
        Ok(out)
    } else if name.eq_bytes(buf, [105u8, 115, 111, 45, 56, 56, 53, 57, 45, 56].as_slice()) {
        let out = decode_iso_8859_8(&value);
        Ok(out)
    } else if name.eq_bytes(buf, [105u8, 115, 111, 45, 56, 56, 53, 57, 45, 57].as_slice()) {
        let out = decode_iso_8859_9(&value);
        Ok(out)
    } else if name.eq_bytes(buf, [105u8, 115, 111, 45, 56, 56, 53, 57, 45, 49, 48].as_slice()) {
        let out = decode_iso_8859_10(&value);
        Ok(out)
    } else if name.eq_bytes(buf, [105u8, 115, 111, 45, 56, 56, 53, 57, 45, 49, 49].as_slice()) {
        let out = decode_iso_8859_11(&value);
        Ok(out)
    } else if name.eq_bytes(buf, [105u8, 115, 111, 45, 56, 56, 53, 57, 45, 49, 51].as_slice()) {
        let out = decode_iso_8859_13(&value);
        Ok(out)
    } else if name.eq_bytes(buf, [105u8, 115, 111, 45, 56, 56, 53, 57, 45, 49, 52].as_slice()) {
        let out = decode_iso_8859_14(&value);
        Ok(out)
    } else if name.eq_bytes(buf, [105u8, 115, 111, 45, 56, 56, 53, 57, 45, 49, 53].as_slice()) {
        let out = decode_iso_8859_15(&value);
        Ok(out)
    } else if name.eq_bytes(buf, [105u8, 115, 111, 45, 56, 56, 53, 57, 45, 49, 54].as_slice()) {
        let out = decode_iso_8859_16(&value);
        Ok(out)
    } else if name.eq_bytes(buf, [105u8, 115, 111, 45, 54, 57, 51, 55].as_slice()) {
        let out = decode_iso_6937(&value);
        Ok(out)
    } else if name.eq_bytes(buf, [103u8, 98, 50, 51, 49, 50].as_slice()) {
        let out = decode_gb2312(&value);
        Ok(out)
    } else {
        Err(Error::Unsupported)
    }
}

} // verus!
