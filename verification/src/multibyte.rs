//! Recognition and decoding of one multi-byte UTF-8 sequence at the front of
//! a byte slice, verified against the UTF-8 model in `vstd::utf8`.

use vstd::prelude::*;
use vstd::utf8::*;

verus! {

/// The number of bytes a multi-byte UTF-8 sequence starting with this lead
/// byte must have, or `None` when the byte is not a multi-byte lead.
pub open spec fn lead_width(c: u8) -> Option<u8> {
    if 0xC0 <= c <= 0xDF {
        Some(2u8)
    } else if 0xE0 <= c <= 0xEF {
        Some(3u8)
    } else if 0xF0 <= c <= 0xF7 {
        Some(4u8)
    } else {
        None
    }
}

/// Classifies a byte by its high-order bits as the lead of a 2-, 3- or
/// 4-byte UTF-8 sequence, or as no multi-byte lead at all.
pub fn num_utf8_chars(c: u8) -> (r: Option<u8>)
    ensures
        r == lead_width(c),
{
    proof {
        assert((c >> 5 == 6) == (0xC0 <= c <= 0xDF)) by (bit_vector);
        assert((c >> 4 == 14) == (0xE0 <= c <= 0xEF)) by (bit_vector);
        assert((c >> 3 == 30) == (0xF0 <= c <= 0xF7)) by (bit_vector);
    }
    if (c >> 5) == 6 {
        // c = 110xxxxx
        Some(2)
    } else if (c >> 4) == 14 {
        // c = 1110xxxx
        Some(3)
    } else if (c >> 3) == 30 {
        // c = 11110xxx
        Some(4)
    } else {
        None
    }
}

/// Tests for the continuation-byte bit pattern 10xxxxxx.
pub fn is_continuation(b: u8) -> (r: bool)
    ensures
        r == is_continuation_byte(b),
{
    0x80 <= b && b <= 0xBF
}

/// Relies on char::from_u32: returns `Some` exactly when the value is a
/// Unicode scalar (at most 0x10FFFF and not in the surrogate range), and the
/// character returned carries that scalar value.
#[verifier::external_body]
fn char_from_u32(v: u32) -> (r: Option<char>)
    ensures
        r is Some <==> is_scalar(v),
        r matches Some(c) ==> c as u32 == v,
{
    char::from_u32(v)
}

/// Decodes `bytes[i..j]` as one complete multi-byte UTF-8 sequence whose
/// expected length, read off the lead byte, is `n`. Returns the encoded
/// character when the slice is exactly such a sequence, and `None` when the
/// slice is truncated or malformed.
pub fn decode_multibyte(bytes: &Vec<u8>, i: usize, j: usize, n: u8) -> (r: Option<char>)
    requires
        i < j <= bytes@.len(),
        lead_width(bytes@[i as int]) == Some(n),
        j - i <= n,
    ensures
        r matches Some(c) ==> valid_utf8(bytes@.subrange(i as int, j as int)) && decode_utf8(
            bytes@.subrange(i as int, j as int),
        ) == seq![c],
        r is None ==> !valid_utf8(bytes@.subrange(i as int, j as int)),
{
    let ghost sub = bytes@.subrange(i as int, j as int);
    let lead = bytes[i];
    let avail = j - i;
    proof {
        assert(sub.len() == j - i);
        assert(sub[0] == lead);
    }
    if n == 2 {
        if avail < 2 {
            proof {
                assert(!valid_first_scalar(sub));
            }
            return None;
        }
        let b1 = bytes[i + 1];
        proof {
            assert(sub[1] == b1);
        }
        if !is_continuation(b1) {
            proof {
                assert(!valid_first_scalar(sub));
            }
            return None;
        }
        let v: u32 = (((lead & 0x1F) as u32) << 6) | ((b1 & 0x3F) as u32);
        proof {
            assert(v == codepoint_width_2(lead, b1));
            assert((((lead & 0x1Fu8) as u32) << 6u32) | ((b1 & 0x3Fu8) as u32) <= 0x7FF)
                by (bit_vector);
        }
        if v < 0x80 {
            proof {
                assert(!not_overlong_encoding(decode_first_codepoint(sub), 2));
                assert(!valid_first_scalar(sub));
            }
            return None;
        }
        proof {
            lemma_single_scalar_slice(sub, v as u32);
        }
        let c = char_from_u32(v);
        proof {
            char_u32_cast(c->0, v);
        }
        c
    } else if n == 3 {
        if avail < 3 {
            proof {
                assert(!valid_first_scalar(sub));
            }
            return None;
        }
        let b1 = bytes[i + 1];
        let b2 = bytes[i + 2];
        proof {
            assert(sub[1] == b1);
            assert(sub[2] == b2);
        }
        if !is_continuation(b1) || !is_continuation(b2) {
            proof {
                assert(!valid_first_scalar(sub));
            }
            return None;
        }
        let v: u32 = (((lead & 0x0F) as u32) << 12) | (((b1 & 0x3F) as u32) << 6) | ((b2
            & 0x3F) as u32);
        proof {
            assert(v == codepoint_width_3(lead, b1, b2));
            assert((((lead & 0x0Fu8) as u32) << 12u32) | (((b1 & 0x3Fu8) as u32) << 6u32) | ((b2
                & 0x3Fu8) as u32) <= 0xFFFF) by (bit_vector);
        }
        if v < 0x800 || (0xD800 <= v && v <= 0xDFFF) {
            proof {
                assert(!valid_first_scalar(sub));
            }
            return None;
        }
        proof {
            lemma_single_scalar_slice(sub, v as u32);
        }
        let c = char_from_u32(v);
        proof {
            char_u32_cast(c->0, v);
        }
        c
    } else {
        if avail < 4 {
            proof {
                assert(!valid_first_scalar(sub));
            }
            return None;
        }
        let b1 = bytes[i + 1];
        let b2 = bytes[i + 2];
        let b3 = bytes[i + 3];
        proof {
            assert(sub[1] == b1);
            assert(sub[2] == b2);
            assert(sub[3] == b3);
        }
        if !is_continuation(b1) || !is_continuation(b2) || !is_continuation(b3) {
            proof {
                assert(!valid_first_scalar(sub));
            }
            return None;
        }
        let v: u32 = (((lead & 0x07) as u32) << 18) | (((b1 & 0x3F) as u32) << 12) | (((b2
            & 0x3F) as u32) << 6) | ((b3 & 0x3F) as u32);
        proof {
            assert(v == codepoint_width_4(lead, b1, b2, b3));
        }
        if v < 0x10000 || v > 0x10FFFF {
            proof {
                assert(!valid_first_scalar(sub));
            }
            return None;
        }
        proof {
            lemma_single_scalar_slice(sub, v as u32);
        }
        let c = char_from_u32(v);
        proof {
            char_u32_cast(c->0, v);
        }
        c
    }
}

/// A slice that is one whole well-formed scalar encoding is valid UTF-8 and
/// decodes to exactly that scalar's character.
proof fn lemma_single_scalar_slice(sub: Seq<u8>, v: u32)
    requires
        valid_first_scalar(sub),
        sub.len() == length_of_first_scalar(sub),
        v == decode_first_scalar(sub),
    ensures
        valid_utf8(sub),
        decode_utf8(sub) == seq![v as char],
{
    let pop = pop_first_scalar(sub);
    assert(pop.len() == 0);
    assert(valid_utf8(pop));
    assert(valid_utf8(sub));
    assert(decode_utf8(pop) == Seq::<char>::empty());
    assert(decode_utf8(sub) =~= seq![v as char]);
}

} // verus!
