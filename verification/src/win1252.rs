//! A model of the windows-1252 encoding, and trusted wrappers around the
//! `encoding_rs` implementation of it.
//!
//! windows-1252 is total in the decoding direction: every byte denotes one
//! character. Bytes `0x00..=0x7F` and `0xA0..=0xFF` denote the character with
//! the same code point; bytes `0x80..=0x9F` denote the characters given by a
//! fixed 32-entry table. The encoding direction is the inverse of that map and
//! is defined exactly on the 256 characters in its image.

use vstd::prelude::*;

verus! {

/// The character denoted by one byte of windows-1252 data.
pub open spec fn decode_byte(b: u8) -> char {
    match b {
        0x80u8 => '\u{20AC}',
        0x81u8 => '\u{0081}',
        0x82u8 => '\u{201A}',
        0x83u8 => '\u{0192}',
        0x84u8 => '\u{201E}',
        0x85u8 => '\u{2026}',
        0x86u8 => '\u{2020}',
        0x87u8 => '\u{2021}',
        0x88u8 => '\u{02C6}',
        0x89u8 => '\u{2030}',
        0x8Au8 => '\u{0160}',
        0x8Bu8 => '\u{2039}',
        0x8Cu8 => '\u{0152}',
        0x8Du8 => '\u{008D}',
        0x8Eu8 => '\u{017D}',
        0x8Fu8 => '\u{008F}',
        0x90u8 => '\u{0090}',
        0x91u8 => '\u{2018}',
        0x92u8 => '\u{2019}',
        0x93u8 => '\u{201C}',
        0x94u8 => '\u{201D}',
        0x95u8 => '\u{2022}',
        0x96u8 => '\u{2013}',
        0x97u8 => '\u{2014}',
        0x98u8 => '\u{02DC}',
        0x99u8 => '\u{2122}',
        0x9Au8 => '\u{0161}',
        0x9Bu8 => '\u{203A}',
        0x9Cu8 => '\u{0153}',
        0x9Du8 => '\u{009D}',
        0x9Eu8 => '\u{017E}',
        0x9Fu8 => '\u{0178}',
        _ => b as char,
    }
}

/// Whether a character lies in the windows-1252 repertoire, that is, whether
/// some byte decodes to it.
pub open spec fn encodable(c: char) -> bool {
    (c as int) < 0x80 || (0xA0 <= (c as int) && (c as int) <= 0xFF) || table_char(c)
}

/// Whether a character is one of the 32 characters denoted by the bytes
/// `0x80..=0x9F`.
pub open spec fn table_char(c: char) -> bool {
    match c {
        '\u{20AC}' | '\u{0081}' | '\u{201A}' | '\u{0192}' | '\u{201E}' | '\u{2026}'
        | '\u{2020}' | '\u{2021}' | '\u{02C6}' | '\u{2030}' | '\u{0160}' | '\u{2039}'
        | '\u{0152}' | '\u{008D}' | '\u{017D}' | '\u{008F}' | '\u{0090}' | '\u{2018}'
        | '\u{2019}' | '\u{201C}' | '\u{201D}' | '\u{2022}' | '\u{2013}' | '\u{2014}'
        | '\u{02DC}' | '\u{2122}' | '\u{0161}' | '\u{203A}' | '\u{0153}' | '\u{009D}'
        | '\u{017E}' | '\u{0178}' => true,
        _ => false,
    }
}

/// The byte that encodes a character of the windows-1252 repertoire.
/// Outside the repertoire the result is of no significance.
pub open spec fn encode_char(c: char) -> u8 {
    match c {
        '\u{20AC}' => 0x80u8,
        '\u{0081}' => 0x81u8,
        '\u{201A}' => 0x82u8,
        '\u{0192}' => 0x83u8,
        '\u{201E}' => 0x84u8,
        '\u{2026}' => 0x85u8,
        '\u{2020}' => 0x86u8,
        '\u{2021}' => 0x87u8,
        '\u{02C6}' => 0x88u8,
        '\u{2030}' => 0x89u8,
        '\u{0160}' => 0x8Au8,
        '\u{2039}' => 0x8Bu8,
        '\u{0152}' => 0x8Cu8,
        '\u{008D}' => 0x8Du8,
        '\u{017D}' => 0x8Eu8,
        '\u{008F}' => 0x8Fu8,
        '\u{0090}' => 0x90u8,
        '\u{2018}' => 0x91u8,
        '\u{2019}' => 0x92u8,
        '\u{201C}' => 0x93u8,
        '\u{201D}' => 0x94u8,
        '\u{2022}' => 0x95u8,
        '\u{2013}' => 0x96u8,
        '\u{2014}' => 0x97u8,
        '\u{02DC}' => 0x98u8,
        '\u{2122}' => 0x99u8,
        '\u{0161}' => 0x9Au8,
        '\u{203A}' => 0x9Bu8,
        '\u{0153}' => 0x9Cu8,
        '\u{009D}' => 0x9Du8,
        '\u{017E}' => 0x9Eu8,
        '\u{0178}' => 0x9Fu8,
        _ => c as u8,
    }
}

/// Decoding is a left inverse of encoding: every byte decodes to a character
/// of the repertoire, and encoding that character gives the byte back.
pub proof fn lemma_encode_decode_byte(b: u8)
    ensures
        encodable(decode_byte(b)),
        encode_char(decode_byte(b)) == b,
{
}

/// Encoding is a left inverse of decoding on the repertoire.
pub proof fn lemma_decode_encode_byte(c: char)
    requires
        encodable(c),
    ensures
        decode_byte(encode_char(c)) == c,
{
}

/// The text denoted by a sequence of windows-1252 bytes.
pub open spec fn decode_seq(bs: Seq<u8>) -> Seq<char> {
    bs.map_values(|b: u8| decode_byte(b))
}

/// The windows-1252 bytes of a text whose characters all lie in the
/// repertoire. Outside the repertoire the bytes are of no significance.
pub open spec fn encode_seq(cs: Seq<char>) -> Seq<u8> {
    cs.map_values(|c: char| encode_char(c))
}

/// Whether every character of a text lies in the windows-1252 repertoire.
pub open spec fn all_encodable(cs: Seq<char>) -> bool {
    forall|i: int| 0 <= i < cs.len() ==> encodable(#[trigger] cs[i])
}

/// Any byte sequence decodes to a text wholly inside the repertoire, and
/// encoding that text reproduces the bytes exactly.
pub proof fn lemma_decode_then_encode(bs: Seq<u8>)
    ensures
        all_encodable(decode_seq(bs)),
        encode_seq(decode_seq(bs)) == bs,
{
    assert forall|i: int| 0 <= i < decode_seq(bs).len() implies encodable(
        #[trigger] decode_seq(bs)[i],
    ) by {
        lemma_encode_decode_byte(bs[i]);
    }
    assert forall|i: int| 0 <= i < bs.len() implies encode_seq(decode_seq(bs))[i] == bs[i] by {
        lemma_encode_decode_byte(bs[i]);
    }
    assert(encode_seq(decode_seq(bs)) =~= bs);
}

/// Decoding the encoding of a text inside the repertoire reproduces the text
/// exactly.
pub proof fn lemma_encode_then_decode(cs: Seq<char>)
    requires
        all_encodable(cs),
    ensures
        decode_seq(encode_seq(cs)) == cs,
{
    assert forall|i: int| 0 <= i < cs.len() implies decode_seq(encode_seq(cs))[i] == cs[i] by {
        lemma_decode_encode_byte(cs[i]);
    }
    assert(decode_seq(encode_seq(cs)) =~= cs);
}

/// A bound under which the codec's buffer-size arithmetic, which panics on
/// `usize` overflow, stays far from overflowing even on 32-bit machines.
/// No contact-card file comes near it.
pub const MAX_TEXT_LEN: usize = 0x0800_0000;

/// Relies on `encoding_rs::WINDOWS_1252.decode_without_bom_handling`: the
/// windows-1252 decoder turns each byte into the character its 256-entry
/// table gives, and cannot fail. The length bound keeps the decoder's
/// documented panic on buffer-size overflow out of reach.
#[verifier::external_body]
pub(crate) fn decode_win1252(bytes: &[u8]) -> (text: Vec<char>)
    requires
        bytes@.len() <= MAX_TEXT_LEN,
    ensures
        text@ == decode_seq(bytes@),
{
    let (cow, _) = encoding_rs::WINDOWS_1252.decode_without_bom_handling(bytes);
    cow.chars().collect()
}

/// Relies on `encoding_rs::WINDOWS_1252.encode`: for a text wholly inside the
/// windows-1252 repertoire, the encoder writes each character's single table
/// byte and reports nothing unmappable. The length bound keeps the encoder's
/// documented panic on buffer-size overflow out of reach.
#[verifier::external_body]
pub(crate) fn encode_win1252(text: &Vec<char>) -> (bytes: Vec<u8>)
    requires
        all_encodable(text@),
        text@.len() <= MAX_TEXT_LEN,
    ensures
        bytes@ == encode_seq(text@),
{
    let s: String = text.iter().collect();
    let (cow, _, _) = encoding_rs::WINDOWS_1252.encode(&s);
    cow.into_owned()
}

} // verus!
