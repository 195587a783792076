//! The laws the decoder obeys, proved over `decode_spec`: identity on 7-bit
//! input, legacy mapping of single bytes, preservation of well-formed
//! multi-byte sequences, the one-byte fallback, failure on undefined legacy
//! bytes, and concatenation across step boundaries.

use vstd::prelude::*;

use crate::decode_spec;
use crate::first_step_chars;
use crate::first_step_len;
use crate::lemma_opt_prepend_empty;
use crate::multibyte::lead_width;
use crate::opt_concat;
use crate::opt_prepend;
use crate::slice_end;
use crate::table::win1252_entry;
use vstd::utf8::decode_first_scalar;
use vstd::utf8::decode_utf8;
use vstd::utf8::is_continuation_byte;
use vstd::utf8::length_of_first_scalar;
use vstd::utf8::valid_first_scalar;
use vstd::utf8::valid_utf8;

verus! {

/// A candidate slice shorter than its lead byte demands is never valid UTF-8.
proof fn lemma_truncated_invalid(s: Seq<u8>, n: u8)
    requires
        s.len() > 0,
        lead_width(s[0]) == Some(n),
        s.len() < n,
    ensures
        !valid_utf8(s),
{
    assert(!valid_first_scalar(s));
}

/// Identity on 7-bit input: a sequence holding only bytes below 0x80
/// converts to exactly those bytes' own characters.
pub proof fn lemma_ascii_identity(s: Seq<u8>)
    requires
        forall|k: int| 0 <= k < s.len() ==> s[k] < 0x80,
    ensures
        decode_spec(s) == Some(s.map_values(|b: u8| b as char)),
    decreases s.len(),
{
    if s.len() == 0 {
        assert(s.map_values(|b: u8| b as char) =~= Seq::<char>::empty());
    } else {
        assert(s[0] < 0x80);
        assert(first_step_chars(s) == Some(seq![s[0] as char]));
        assert(first_step_len(s) == 1);
        assert(forall|k: int| 0 <= k < s.skip(1).len() ==> s.skip(1)[k] < 0x80);
        lemma_ascii_identity(s.skip(1));
        assert(seq![s[0] as char] + s.skip(1).map_values(|b: u8| b as char) =~= s.map_values(
            |b: u8| b as char,
        ));
    }
}

/// Legacy mapping correctness: a single byte at or above 0x80 with a defined
/// table entry converts to exactly that entry's character.
pub proof fn lemma_legacy_single_byte(b: u8, c: char)
    requires
        0x80 <= b,
        win1252_entry(b) == Some(c),
    ensures
        decode_spec(seq![b]) == Some(seq![c]),
{
    let s = seq![b];
    assert(s.len() == 1);
    assert(s[0] == b);
    match lead_width(b) {
        Some(n) => {
            assert(slice_end(s, n) == 1);
            assert(s.subrange(0, 1) =~= s);
            lemma_truncated_invalid(s, n);
            assert(first_step_chars(s) == Some(seq![c]));
        },
        None => {
            assert(first_step_chars(s) == Some(seq![c]));
        },
    }
    assert(first_step_len(s) == 1);
    assert(s.skip(1) =~= Seq::<u8>::empty());
    assert(decode_spec(s.skip(1)) == Some(Seq::<char>::empty()));
    assert(seq![c] + Seq::<char>::empty() =~= seq![c]);
}

/// Multi-byte preservation: a well-formed multi-byte encoding of one
/// character at the front of the input is consumed whole and comes out as
/// exactly that character, whatever follows.
pub proof fn lemma_multibyte_preserved(m: Seq<u8>, t: Seq<u8>)
    requires
        2 <= m.len(),
        valid_utf8(m),
        m.len() == length_of_first_scalar(m),
    ensures
        decode_spec(m + t) == opt_prepend(seq![decode_first_scalar(m) as char], decode_spec(t)),
{
    let s = m + t;
    assert(s.len() == m.len() + t.len());
    assert(s[0] == m[0]);
    assert(valid_first_scalar(m));
    let n: u8 = m.len() as u8;
    assert(lead_width(m[0]) == Some(n));
    assert(slice_end(s, n) == n as int);
    assert(s.subrange(0, n as int) =~= m);
    assert(first_step_len(s) == n as int);
    assert(s.skip(n as int) =~= t);
    let pop = vstd::utf8::pop_first_scalar(m);
    assert(pop.len() == 0);
    assert(valid_utf8(pop));
    assert(decode_utf8(pop) == Seq::<char>::empty());
    assert(decode_utf8(m) =~= seq![decode_first_scalar(m) as char]);
    assert(first_step_chars(s) == Some(decode_utf8(m)));
}

/// Fallback precedence: a byte matching a multi-byte lead pattern whose
/// candidate slice is not valid UTF-8 is decoded as its own Windows-1252
/// character alone, and scanning resumes at the very next byte.
pub proof fn lemma_fallback_precedence(s: Seq<u8>, n: u8, c: char)
    requires
        s.len() > 0,
        lead_width(s[0]) == Some(n),
        !valid_utf8(s.subrange(0, slice_end(s, n))),
        win1252_entry(s[0]) == Some(c),
    ensures
        decode_spec(s) == opt_prepend(seq![c], decode_spec(s.skip(1))),
{
    assert(0x80 <= s[0]);
    assert(first_step_chars(s) == Some(seq![c]));
    assert(first_step_len(s) == 1);
}

/// The cursor positions the scan visits: position `k` is reached when some
/// run of decode steps from the front adds up to exactly `k` bytes. A
/// multi-byte sequence spans a cut exactly when the cut is not reached.
pub open spec fn reaches(s: Seq<u8>, k: int) -> bool
    decreases s.len(),
{
    if k == 0 {
        true
    } else if s.len() == 0 {
        false
    } else {
        let st: int = first_step_len(s);
        0 < k <= s.len() && k - st >= 0 && reaches(s.skip(st), k - st)
    }
}

/// Every scan reaches the end of its input.
pub proof fn lemma_reaches_end(s: Seq<u8>)
    ensures
        reaches(s, s.len() as int),
    decreases s.len(),
{
    if s.len() > 0 {
        let st: int = first_step_len(s);
        assert(1 <= st <= s.len());
        lemma_reaches_end(s.skip(st));
        assert(s.skip(st).len() == s.len() - st);
    }
}

/// Below a step boundary, one step of the combined input and one step of its
/// left part alone agree: same consumed length, same characters.
proof fn lemma_step_agrees(a: Seq<u8>, b: Seq<u8>)
    requires
        a.len() > 0,
        first_step_len(a + b) <= a.len(),
    ensures
        first_step_len(a) == first_step_len(a + b),
        first_step_chars(a) == first_step_chars(a + b),
{
    let s = a + b;
    assert(s[0] == a[0]);
    match lead_width(a[0]) {
        Some(n) => {
            let js: int = slice_end(s, n);
            let ja: int = slice_end(a, n);
            if n as int <= a.len() {
                assert(ja == n as int && js == n as int);
                assert(s.subrange(0, n as int) =~= a.subrange(0, n as int));
            } else {
                assert(ja == a.len() as int);
                assert(a.subrange(0, ja) =~= a);
                lemma_truncated_invalid(a, n);
                if valid_utf8(s.subrange(0, js)) {
                    if js < n as int {
                        lemma_truncated_invalid(s.subrange(0, js), n);
                        assert(false);
                    }
                    assert(first_step_len(s) == js);
                    assert(js == n as int > a.len());
                    assert(false);
                }
            }
        },
        None => {},
    }
}

/// Mixed-content concatenation: when the cut between the two parts is a
/// step boundary of the combined input, converting the concatenation gives
/// the concatenation of the two parts' conversions.
pub proof fn lemma_concat(a: Seq<u8>, b: Seq<u8>)
    requires
        reaches(a + b, a.len() as int),
    ensures
        decode_spec(a + b) == opt_concat(decode_spec(a), decode_spec(b)),
    decreases a.len(),
{
    let s = a + b;
    if a.len() == 0 {
        assert(s =~= b);
        lemma_opt_prepend_empty(decode_spec(b));
    } else {
        let st: int = first_step_len(s);
        assert(0 < a.len() <= s.len() && a.len() - st >= 0 && reaches(
            s.skip(st),
            a.len() - st,
        ));
        lemma_step_agrees(a, b);
        let a2 = a.skip(st);
        assert(a2.len() == a.len() - st);
        assert(a2 + b =~= s.skip(st));
        lemma_concat(a2, b);
        match first_step_chars(s) {
            Some(cs) => {
                assert(decode_spec(s) == opt_prepend(cs, decode_spec(s.skip(st))));
                assert(decode_spec(a) == opt_prepend(cs, decode_spec(a2)));
                match decode_spec(a2) {
                    Some(p2) => {
                        match decode_spec(b) {
                            Some(q) => {
                                assert(cs + (p2 + q) =~= (cs + p2) + q);
                            },
                            None => {},
                        }
                    },
                    None => {},
                }
            },
            None => {},
        }
    }
}

/// A valid multi-byte slice never crosses a cut into bytes that do not carry
/// the continuation pattern, so when the right part starts with anything but
/// a continuation byte the cut is always a step boundary.
pub proof fn lemma_no_span(a: Seq<u8>, b: Seq<u8>)
    requires
        b.len() == 0 || !is_continuation_byte(b[0]),
    ensures
        reaches(a + b, a.len() as int),
    decreases a.len(),
{
    let s = a + b;
    if b.len() == 0 {
        assert(s =~= a);
        lemma_reaches_end(a);
        assert(a.len() as int == s.len() as int);
    } else if a.len() == 0 {
    } else {
        let st: int = first_step_len(s);
        assert(st <= a.len()) by {
            match lead_width(s[0]) {
                Some(n) => {
                    let js: int = slice_end(s, n);
                    if valid_utf8(s.subrange(0, js)) && js > a.len() {
                        if js < n as int {
                            lemma_truncated_invalid(s.subrange(0, js), n);
                        }
                        assert(js == n as int);
                        let sl = s.subrange(0, n as int);
                        assert(valid_first_scalar(sl));
                        assert(sl[a.len() as int] == b[0]);
                        assert(is_continuation_byte(b[0]));
                        assert(false);
                    }
                },
                None => {},
            }
        }
        let a2 = a.skip(st);
        assert(a2 + b =~= s.skip(st));
        assert(a2.len() == a.len() - st);
        lemma_no_span(a2, b);
    }
}

/// Mixed-content concatenation without a spanning sequence: when the right
/// part does not start with a continuation byte, no multi-byte sequence can
/// cross the cut, and the conversions concatenate.
pub proof fn lemma_concat_no_span(a: Seq<u8>, b: Seq<u8>)
    requires
        b.len() == 0 || !is_continuation_byte(b[0]),
    ensures
        decode_spec(a + b) == opt_concat(decode_spec(a), decode_spec(b)),
{
    lemma_no_span(a, b);
    lemma_concat(a, b);
}

/// Multi-byte preservation anywhere: a well-formed multi-byte encoding of
/// one character, embedded at any position, comes out as exactly that
/// character between what precedes and what follows it.
pub proof fn lemma_multibyte_anywhere(a: Seq<u8>, m: Seq<u8>, t: Seq<u8>)
    requires
        2 <= m.len(),
        valid_utf8(m),
        m.len() == length_of_first_scalar(m),
    ensures
        decode_spec(a + m + t) == opt_concat(
            decode_spec(a),
            opt_prepend(seq![decode_first_scalar(m) as char], decode_spec(t)),
        ),
{
    assert(valid_first_scalar(m));
    assert(!is_continuation_byte(m[0]));
    assert((a + m) + t =~= a + (m + t));
    assert((m + t)[0] == m[0]);
    lemma_concat_no_span(a, m + t);
    lemma_multibyte_preserved(m, t);
}

/// Fatal on an undefined legacy byte: when the first byte is at or above
/// 0x80, does not start a valid multi-byte slice, and has an undefined table
/// slot, the whole conversion fails.
pub proof fn lemma_undefined_byte_fatal(s: Seq<u8>)
    requires
        s.len() > 0,
        0x80 <= s[0],
        win1252_entry(s[0]) is None,
        lead_width(s[0]) matches Some(n) ==> !valid_utf8(s.subrange(0, slice_end(s, n))),
    ensures
        decode_spec(s) is None,
{
    assert(first_step_chars(s) is None);
}

} // verus!
