//! Decoder for byte streams that mix Windows-1252 single-byte text with
//! well-formed UTF-8 multi-byte sequences, producing one UTF-8 `String`.
//!
//! Valid multi-byte sequences are preserved; any other byte is read as a
//! Windows-1252 character. A byte at or above 0x80 whose Windows-1252 slot
//! is undefined stops the conversion with [`ConvertError::InvalidLegacyByte`].

use vstd::prelude::*;

pub mod laws;
pub mod multibyte;
pub mod table;

use crate::multibyte::decode_multibyte;
use crate::multibyte::lead_width;
use crate::multibyte::num_utf8_chars;
use crate::table::convert_win1252_byte;
use crate::table::legacy_char;
use vstd::utf8::decode_utf8;
use vstd::utf8::valid_utf8;

verus! {

/// The single failure of the decoder: a byte at or above 0x80 that is neither
/// part of a valid UTF-8 sequence nor a defined Windows-1252 character.
#[derive(Clone, Copy, Debug, PartialEq, Eq, Structural)]
pub enum ConvertError {
    InvalidLegacyByte,
}

/// Where the candidate slice for a lead byte wanting `n` bytes ends: after
/// `n` bytes when that many remain, else at the end of the input.
pub open spec fn slice_end(s: Seq<u8>, n: u8) -> int {
    if n as int <= s.len() {
        n as int
    } else {
        s.len() as int
    }
}

/// How many bytes the first decode step on `s` consumes: the whole candidate
/// slice when it is valid UTF-8, one byte otherwise.
pub open spec fn first_step_len(s: Seq<u8>) -> int
    recommends
        s.len() > 0,
{
    match lead_width(s[0]) {
        Some(n) => {
            let j: int = slice_end(s, n);
            if valid_utf8(s.subrange(0, j)) {
                j
            } else {
                1
            }
        },
        None => 1,
    }
}

/// What the first decode step on `s` appends: the characters of a valid
/// multi-byte slice; else the Windows-1252 character of the first byte; or
/// `None` when that byte's table slot is undefined.
pub open spec fn first_step_chars(s: Seq<u8>) -> Option<Seq<char>>
    recommends
        s.len() > 0,
{
    match lead_width(s[0]) {
        Some(n) => {
            let j: int = slice_end(s, n);
            if valid_utf8(s.subrange(0, j)) {
                Some(decode_utf8(s.subrange(0, j)))
            } else {
                match legacy_char(s[0]) {
                    Some(c) => Some(seq![c]),
                    None => None,
                }
            }
        },
        None => match legacy_char(s[0]) {
            Some(c) => Some(seq![c]),
            None => None,
        },
    }
}

/// Prepends already-decoded characters to the outcome of decoding the rest;
/// a failure further right stays a failure.
pub open spec fn opt_prepend(p: Seq<char>, rest: Option<Seq<char>>) -> Option<Seq<char>> {
    match rest {
        Some(r) => Some(p + r),
        None => None,
    }
}

/// Joins the outcomes of decoding two parts: the concatenation of the two
/// character sequences, or a failure when either part failed.
pub open spec fn opt_concat(x: Option<Seq<char>>, y: Option<Seq<char>>) -> Option<Seq<char>> {
    match x {
        Some(p) => opt_prepend(p, y),
        None => None,
    }
}

/// The whole conversion, stated over sequences: repeat the first step until
/// the input is consumed, concatenating what each step appends; `None` as
/// soon as a step meets an undefined legacy byte.
pub open spec fn decode_spec(s: Seq<u8>) -> Option<Seq<char>>
    decreases s.len(),
{
    if s.len() == 0 {
        Some(Seq::empty())
    } else {
        match first_step_chars(s) {
            Some(cs) => opt_prepend(cs, decode_spec(s.skip(first_step_len(s)))),
            None => None,
        }
    }
}

/// Relies on String::push: appends exactly the given character.
#[verifier::external_body]
fn push_char(text: &mut String, c: char)
    ensures
        final(text)@ == old(text)@.push(c),
{
    text.push(c);
}

/// Prepending no characters leaves a decode outcome unchanged.
pub(crate) proof fn lemma_opt_prepend_empty(d: Option<Seq<char>>)
    ensures
        opt_prepend(Seq::empty(), d) == d,
{
    match d {
        Some(r) => {
            assert(Seq::<char>::empty() + r =~= r);
        },
        None => {},
    }
}

/// One decode step, seen from the whole input: when the cursor stands at `i`
/// with the characters `pre` already out, a step that appends `step` and
/// consumes `k` bytes moves the cursor to `i + k` with `pre + step` out.
proof fn lemma_advance(s: Seq<u8>, i: int, pre: Seq<char>, step: Seq<char>, k: int)
    requires
        0 <= i < s.len(),
        decode_spec(s) == opt_prepend(pre, decode_spec(s.skip(i))),
        first_step_chars(s.skip(i)) == Some(step),
        k == first_step_len(s.skip(i)),
    ensures
        i + k <= s.len(),
        decode_spec(s) == opt_prepend(pre + step, decode_spec(s.skip(i + k))),
{
    let rem = s.skip(i);
    assert(rem.len() == s.len() - i);
    assert(1 <= k <= rem.len());
    assert(rem.skip(k) =~= s.skip(i + k));
    assert(decode_spec(rem) == opt_prepend(step, decode_spec(rem.skip(k))));
    match decode_spec(s.skip(i + k)) {
        Some(r) => {
            assert(pre + (step + r) =~= (pre + step) + r);
        },
        None => {},
    }
}

/// When the cursor stands at an undefined legacy byte, the whole conversion
/// fails.
proof fn lemma_fail(s: Seq<u8>, i: int, pre: Seq<char>)
    requires
        0 <= i < s.len(),
        decode_spec(s) == opt_prepend(pre, decode_spec(s.skip(i))),
        first_step_chars(s.skip(i)) is None,
    ensures
        decode_spec(s) is None,
{
    let rem = s.skip(i);
    assert(rem.len() == s.len() - i);
    assert(decode_spec(rem) is None);
}

/// Converts a byte sequence mixing Windows-1252 and well-formed UTF-8 into a
/// UTF-8 string. Valid multi-byte sequences win over the single-byte reading;
/// a lead byte whose sequence is truncated or malformed falls back to its
/// Windows-1252 character for that one byte. Fails, with nothing returned,
/// exactly when a byte at or above 0x80 outside any valid multi-byte sequence
/// has an undefined Windows-1252 slot.
pub fn convert(bytes: Vec<u8>) -> (r: Result<String, ConvertError>)
    ensures
        r matches Ok(text) ==> decode_spec(bytes@) == Some(text@),
        r is Err ==> decode_spec(bytes@) is None,
        r matches Err(e) ==> e == ConvertError::InvalidLegacyByte,
{
    let mut result = String::new();
    let mut i: usize = 0;
    let len = bytes.len();
    proof {
        assert(bytes@.skip(0) =~= bytes@);
        lemma_opt_prepend_empty(decode_spec(bytes@));
    }
    while i < len
        invariant
            i <= len,
            len == bytes@.len(),
            decode_spec(bytes@) == opt_prepend(result@, decode_spec(bytes@.skip(i as int))),
        decreases len - i,
    {
        let c = bytes[i];
        let ghost rem = bytes@.skip(i as int);
        proof {
            assert(rem.len() == len - i);
            assert(rem[0] == c);
        }
        match num_utf8_chars(c) {
            Some(n) => {
                let n_us = n as usize;
                let j = if len - i < n_us {
                    len
                } else {
                    i + n_us
                };
                proof {
                    assert(j - i == slice_end(rem, n));
                    assert(bytes@.subrange(i as int, j as int) =~= rem.subrange(0, slice_end(rem, n)));
                }
                match decode_multibyte(&bytes, i, j, n) {
                    Some(ch) => {
                        proof {
                            assert(first_step_chars(rem) == Some(seq![ch]));
                            assert(first_step_len(rem) == j - i);
                            lemma_advance(bytes@, i as int, result@, seq![ch], j - i);
                            assert(result@.push(ch) =~= result@ + seq![ch]);
                        }
                        push_char(&mut result, ch);
                        i = j;
                    },
                    None => {
                        match convert_win1252_byte(c) {
                            Some(ch) => {
                                proof {
                                    assert(first_step_chars(rem) == Some(seq![ch]));
                                    assert(first_step_len(rem) == 1);
                                    lemma_advance(bytes@, i as int, result@, seq![ch], 1);
                                    assert(result@.push(ch) =~= result@ + seq![ch]);
                                }
                                push_char(&mut result, ch);
                                i = i + 1;
                            },
                            None => {
                                proof {
                                    lemma_fail(bytes@, i as int, result@);
                                }
                                return Err(ConvertError::InvalidLegacyByte);
                            },
                        }
                    },
                }
            },
            None => {
                match convert_win1252_byte(c) {
                    Some(ch) => {
                        proof {
                            assert(first_step_chars(rem) == Some(seq![ch]));
                            assert(first_step_len(rem) == 1);
                            lemma_advance(bytes@, i as int, result@, seq![ch], 1);
                            assert(result@.push(ch) =~= result@ + seq![ch]);
                        }
                        push_char(&mut result, ch);
                        i = i + 1;
                    },
                    None => {
                        proof {
                            lemma_fail(bytes@, i as int, result@);
                        }
                        return Err(ConvertError::InvalidLegacyByte);
                    },
                }
            },
        }
    }
    proof {
        assert(bytes@.skip(len as int) =~= Seq::<u8>::empty());
        assert(result@ + Seq::<char>::empty() =~= result@);
    }
    Ok(result)
}

} // verus!
