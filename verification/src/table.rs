//! The Windows-1252 character table: the fixed mapping from byte values at or
//! above 0x80 to Unicode characters, taken entry for entry from the published
//! CP1252 vendor mapping. Five slots (0x81, 0x8D, 0x8F, 0x90, 0x9D) are
//! deliberately undefined there and stay undefined here.

use vstd::prelude::*;

verus! {

/// The Windows-1252 table entry for a byte at or above 0x80, or `None` for
/// the five undefined slots. Bytes 0xA0 through 0xFF map to the Unicode
/// scalar of the same value; bytes 0x80 through 0x9F carry the irregular
/// part of the mapping.
pub open spec fn win1252_entry(b: u8) -> Option<char>
    recommends
        0x80 <= b,
{
    if b < 0x80 {
        None
    } else if b >= 0xA0 {
        Some(b as char)
    } else if b == 0x80 {
        Some('\u{20AC}')
    } else if b == 0x81 {
        None
    } else if b == 0x82 {
        Some('\u{201A}')
    } else if b == 0x83 {
        Some('\u{0192}')
    } else if b == 0x84 {
        Some('\u{201E}')
    } else if b == 0x85 {
        Some('\u{2026}')
    } else if b == 0x86 {
        Some('\u{2020}')
    } else if b == 0x87 {
        Some('\u{2021}')
    } else if b == 0x88 {
        Some('\u{02C6}')
    } else if b == 0x89 {
        Some('\u{2030}')
    } else if b == 0x8A {
        Some('\u{0160}')
    } else if b == 0x8B {
        Some('\u{2039}')
    } else if b == 0x8C {
        Some('\u{0152}')
    } else if b == 0x8D {
        None
    } else if b == 0x8E {
        Some('\u{017D}')
    } else if b == 0x8F {
        None
    } else if b == 0x90 {
        None
    } else if b == 0x91 {
        Some('\u{2018}')
    } else if b == 0x92 {
        Some('\u{2019}')
    } else if b == 0x93 {
        Some('\u{201C}')
    } else if b == 0x94 {
        Some('\u{201D}')
    } else if b == 0x95 {
        Some('\u{2022}')
    } else if b == 0x96 {
        Some('\u{2013}')
    } else if b == 0x97 {
        Some('\u{2014}')
    } else if b == 0x98 {
        Some('\u{02DC}')
    } else if b == 0x99 {
        Some('\u{2122}')
    } else if b == 0x9A {
        Some('\u{0161}')
    } else if b == 0x9B {
        Some('\u{203A}')
    } else if b == 0x9C {
        Some('\u{0153}')
    } else if b == 0x9D {
        None
    } else if b == 0x9E {
        Some('\u{017E}')
    } else {
        Some('\u{0178}')
    }
}

/// The character a lone byte stands for when it is read as Windows-1252 text:
/// bytes below 0x80 are their own character, the rest go through the table.
pub open spec fn legacy_char(b: u8) -> Option<char> {
    if b < 0x80 {
        Some(b as char)
    } else {
        win1252_entry(b)
    }
}

/// Reads one byte as a Windows-1252 character, or `None` for the five
/// undefined table slots.
pub fn convert_win1252_byte(byte: u8) -> (r: Option<char>)
    ensures
        r == legacy_char(byte),
{
    if byte < 0x80 {
        Some(byte as char)
    } else if byte >= 0xA0 {
        Some(byte as char)
    } else {
        match byte {
            0x80u8 => Some('\u{20AC}'),
            0x82u8 => Some('\u{201A}'),
            0x83u8 => Some('\u{0192}'),
            0x84u8 => Some('\u{201E}'),
            0x85u8 => Some('\u{2026}'),
            0x86u8 => Some('\u{2020}'),
            0x87u8 => Some('\u{2021}'),
            0x88u8 => Some('\u{02C6}'),
            0x89u8 => Some('\u{2030}'),
            0x8Au8 => Some('\u{0160}'),
            0x8Bu8 => Some('\u{2039}'),
            0x8Cu8 => Some('\u{0152}'),
            0x8Eu8 => Some('\u{017D}'),
            0x91u8 => Some('\u{2018}'),
            0x92u8 => Some('\u{2019}'),
            0x93u8 => Some('\u{201C}'),
            0x94u8 => Some('\u{201D}'),
            0x95u8 => Some('\u{2022}'),
            0x96u8 => Some('\u{2013}'),
            0x97u8 => Some('\u{2014}'),
            0x98u8 => Some('\u{02DC}'),
            0x99u8 => Some('\u{2122}'),
            0x9Au8 => Some('\u{0161}'),
            0x9Bu8 => Some('\u{203A}'),
            0x9Cu8 => Some('\u{0153}'),
            0x9Eu8 => Some('\u{017E}'),
            0x9Fu8 => Some('\u{0178}'),
            _ => None,
        }
    }
}

} // verus!
