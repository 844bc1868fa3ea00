use vstd::prelude::*;

verus! {

/// ASCII hexadecimal digit.
pub open spec fn is_hex_digit(b: u8) -> bool {
    (48 <= b && b <= 57) || (65 <= b && b <= 70) || (97 <= b && b <= 102)
}

/// Value of an ASCII hexadecimal digit.
pub open spec fn hex_val(b: u8) -> int {
    if 48 <= b && b <= 57 {
        b - 48
    } else if 65 <= b && b <= 70 {
        b - 55
    } else {
        b - 87
    }
}

/// Header-style quoted-printable decoding: `_` denotes a space, `=` followed
/// by two hexadecimal digits denotes that byte, and anything else — a
/// malformed escape included — stands for itself.
pub open spec fn qp_decode(s: Seq<u8>) -> Seq<u8>
    decreases s.len(),
{
    if s.len() == 0 {
        Seq::empty()
    } else if s[0] == 95 {
        seq![32u8] + qp_decode(s.skip(1))
    } else if s[0] == 61 && s.len() >= 3 && is_hex_digit(s[1]) && is_hex_digit(s[2]) {
        seq![(hex_val(s[1]) * 16 + hex_val(s[2])) as u8] + qp_decode(s.skip(3))
    } else {
        seq![s[0]] + qp_decode(s.skip(1))
    }
}

/// The value of one hexadecimal digit, or `None` for any other byte.
fn hex_digit_val(b: u8) -> (r: Option<u8>)
    ensures
        r is Some <==> is_hex_digit(b),
        r matches Some(v) ==> v == hex_val(b),
{
    if 48 <= b && b <= 57 {
        Some(b - 48)
    } else if 65 <= b && b <= 70 {
        Some(b - 55)
    } else if 97 <= b && b <= 102 {
        Some(b - 87)
    } else {
        None
    }
}

/// Decodes a header-style quoted-printable payload. Malformed escapes
/// degrade gracefully: the bytes stand for themselves.
pub fn decode_header_qp(data: &[u8]) -> (r: Vec<u8>)
    ensures
        r@ == qp_decode(data@),
{
    let mut out: Vec<u8> = Vec::new();
    let mut i: usize = 0;
    proof {
        assert(data@.skip(0) =~= data@);
        assert(out@ + qp_decode(data@) =~= qp_decode(data@));
    }
    while i < data.len()
        invariant
            i <= data@.len(),
            qp_decode(data@) == out@ + qp_decode(data@.skip(i as int)),
        decreases data@.len() - i,
    {
        let ghost pre = out@;
        let ghost rest = data@.skip(i as int);
        let b = data[i];
        if b == 95 {
            out.push(32);
            proof {
                assert(rest.skip(1) =~= data@.skip(i + 1));
                assert(out@ + qp_decode(data@.skip(i + 1)) =~= pre + qp_decode(rest));
            }
            i += 1;
        } else if b == 61 && i < data.len() - 1 && i < data.len() - 2 {
            let h1 = hex_digit_val(data[i + 1]);
            let h2 = hex_digit_val(data[i + 2]);
            match (h1, h2) {
                (Some(v1), Some(v2)) => {
                    out.push(v1 * 16 + v2);
                    proof {
                        assert(rest.len() >= 3 && rest[1] == data@[i + 1] && rest[2] == data@[i
                            + 2]);
                        assert(rest.skip(3) =~= data@.skip(i + 3));
                        assert(out@ + qp_decode(data@.skip(i + 3)) =~= pre + qp_decode(rest));
                    }
                    i += 3;
                }
                _ => {
                    out.push(b);
                    proof {
                        assert(rest.skip(1) =~= data@.skip(i + 1));
                        assert(out@ + qp_decode(data@.skip(i + 1)) =~= pre + qp_decode(rest));
                    }
                    i += 1;
                }
            }
        } else {
            out.push(b);
            proof {
                assert(rest.skip(1) =~= data@.skip(i + 1));
                assert(!(rest[0] == 61 && rest.len() >= 3 && is_hex_digit(rest[1]) && is_hex_digit(
                    rest[2],
                )));
                assert(out@ + qp_decode(data@.skip(i + 1)) =~= pre + qp_decode(rest));
            }
            i += 1;
        }
    }
    proof {
        assert(data@.skip(i as int) =~= Seq::<u8>::empty());
        assert(out@ =~= qp_decode(data@));
    }
    out
}

} // verus!
