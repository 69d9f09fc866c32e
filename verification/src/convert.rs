//! The whole-file transformation: decode windows-1252 bytes, rewrite every
//! version marker, and encode the text back, together with its laws.

use crate::rewrite::head_unique;
use crate::rewrite::lemma_no_occurrence_identity;
use crate::rewrite::lemma_replace_all_counts;
use crate::rewrite::lemma_replace_all_len;
use crate::rewrite::lemma_replace_all_positions;
use crate::rewrite::match_at;
use crate::rewrite::occ_count;
use crate::rewrite::replace_all;
use crate::rewrite::replace_all_spec;
use crate::rewrite::starts_with;
use crate::win1252::all_encodable;
use crate::win1252::decode_seq;
use crate::win1252::decode_win1252;
use crate::win1252::encodable;
use crate::win1252::encode_seq;
use crate::win1252::encode_win1252;
use crate::win1252::lemma_decode_then_encode;
use crate::win1252::lemma_encode_then_decode;
use crate::win1252::MAX_TEXT_LEN;
use vstd::prelude::*;

verus! {

/// The version marker that incoming cards carry.
pub open spec fn marker_from() -> Seq<char> {
    seq!['V', 'E', 'R', 'S', 'I', 'O', 'N', ':', '4', '.', '0']
}

/// The version marker that the target service accepts.
pub open spec fn marker_to() -> Seq<char> {
    seq!['V', 'E', 'R', 'S', 'I', 'O', 'N', ':', '3', '.', '0']
}

/// A card's text after conversion: every occurrence of the incoming marker
/// replaced by the accepted one.
pub open spec fn converted_text(t: Seq<char>) -> Seq<char> {
    replace_all_spec(t, marker_from(), marker_to())
}

/// A card file's bytes after conversion: decoded from windows-1252, the
/// markers replaced, and encoded back.
pub open spec fn converted_bytes(bs: Seq<u8>) -> Seq<u8> {
    encode_seq(converted_text(decode_seq(bs)))
}

/// The shape the counting arguments need of the two markers: same length,
/// distinct, and a shared first character that recurs in neither.
proof fn lemma_marker_shape()
    ensures
        marker_from().len() == 11,
        marker_to().len() == 11,
        marker_from() != marker_to(),
        marker_from()[0] == marker_to()[0],
        head_unique(marker_from()),
        head_unique(marker_to()),
        all_encodable(marker_to()),
{
    assert(marker_from()[8] != marker_to()[8]);
    assert(head_unique(marker_from())) by {
        assert forall|i: int| 1 <= i < marker_from().len() implies #[trigger] marker_from()[i]
            != marker_from()[0] by {}
    }
    assert(head_unique(marker_to())) by {
        assert forall|i: int| 1 <= i < marker_to().len() implies #[trigger] marker_to()[i]
            != marker_to()[0] by {}
    }
    assert(all_encodable(marker_to())) by {
        assert forall|i: int| 0 <= i < marker_to().len() implies encodable(
            #[trigger] marker_to()[i],
        ) by {}
    }
}

/// Replacement never leaves the windows-1252 repertoire when the input text
/// and the replacement lie inside it.
proof fn lemma_replace_preserves_encodable(s: Seq<char>, p: Seq<char>, r: Seq<char>)
    requires
        all_encodable(s),
        all_encodable(r),
    ensures
        all_encodable(replace_all_spec(s, p, r)),
    decreases s.len(),
{
    if p.len() == 0 || s.len() == 0 {
    } else {
        assert(all_encodable(s.skip(1))) by {
            assert forall|i: int| 0 <= i < s.skip(1).len() implies encodable(
                #[trigger] s.skip(1)[i],
            ) by {
                assert(s.skip(1)[i] == s[i + 1]);
            }
        }
        lemma_replace_preserves_encodable(s.skip(1), p, r);
        if starts_with(s, p) {
            assert(all_encodable(s.skip(p.len() as int))) by {
                assert forall|i: int| 0 <= i < s.skip(p.len() as int).len() implies encodable(
                    #[trigger] s.skip(p.len() as int)[i],
                ) by {
                    assert(s.skip(p.len() as int)[i] == s[i + p.len()]);
                }
            }
            lemma_replace_preserves_encodable(s.skip(p.len() as int), p, r);
            let rest = replace_all_spec(s.skip(p.len() as int), p, r);
            assert forall|i: int| 0 <= i < (r + rest).len() implies encodable(
                #[trigger] (r + rest)[i],
            ) by {
                if i < r.len() {
                    assert((r + rest)[i] == r[i]);
                } else {
                    assert((r + rest)[i] == rest[i - r.len()]);
                }
            }
        } else {
            let rest = replace_all_spec(s.skip(1), p, r);
            assert forall|i: int| 0 <= i < (seq![s[0]] + rest).len() implies encodable(
                #[trigger] (seq![s[0]] + rest)[i],
            ) by {
                if i >= 1 {
                    assert((seq![s[0]] + rest)[i] == rest[i - 1]);
                }
            }
        }
    }
}

/// The incoming marker as an in-memory text.
pub fn marker_from_vec() -> (v: Vec<char>)
    ensures
        v@ == marker_from(),
{
    let mut v: Vec<char> = Vec::new();
    v.push('V');
    v.push('E');
    v.push('R');
    v.push('S');
    v.push('I');
    v.push('O');
    v.push('N');
    v.push(':');
    v.push('4');
    v.push('.');
    v.push('0');
    proof {
        assert(v@ =~= marker_from());
    }
    v
}

/// The accepted marker as an in-memory text.
pub fn marker_to_vec() -> (v: Vec<char>)
    ensures
        v@ == marker_to(),
{
    let mut v: Vec<char> = Vec::new();
    v.push('V');
    v.push('E');
    v.push('R');
    v.push('S');
    v.push('I');
    v.push('O');
    v.push('N');
    v.push(':');
    v.push('3');
    v.push('.');
    v.push('0');
    proof {
        assert(v@ =~= marker_to());
    }
    v
}

/// Converts one card file: the output is the windows-1252 encoding of the
/// input's text with every incoming version marker replaced by the accepted
/// one, and it decodes back to exactly that text. The length bound is the
/// machine limit under which the codec's buffer arithmetic cannot overflow.
pub fn convert_card(input: &[u8]) -> (output: Vec<u8>)
    requires
        input@.len() <= MAX_TEXT_LEN,
    ensures
        output@ == converted_bytes(input@),
        decode_seq(output@) == converted_text(decode_seq(input@)),
{
    let text = decode_win1252(input);
    let p = marker_from_vec();
    let r = marker_to_vec();
    let replaced = replace_all(&text, &p, &r);
    proof {
        lemma_decode_then_encode(input@);
        lemma_marker_shape();
        lemma_replace_preserves_encodable(text@, p@, r@);
        lemma_replace_all_len(text@, p@, r@);
        lemma_encode_then_decode(replaced@);
    }
    encode_win1252(&replaced)
}

/// After conversion a text holds no incoming marker at any position, and
/// holds one accepted marker for each marker of either kind the input held.
pub proof fn lemma_markers_rewritten(t: Seq<char>)
    ensures
        occ_count(converted_text(t), marker_from()) == 0,
        occ_count(converted_text(t), marker_to()) == occ_count(t, marker_from()) + occ_count(
            t,
            marker_to(),
        ),
{
    lemma_marker_shape();
    lemma_replace_all_counts(t, marker_from(), marker_to());
}

/// Conversion moves no text: the converted text has the input's length, the
/// incoming marker stands nowhere in it, and the accepted marker stands
/// exactly at the positions where the input held a marker of either kind.
pub proof fn lemma_markers_keep_their_positions(t: Seq<char>)
    ensures
        converted_text(t).len() == t.len(),
        forall|i: int| !match_at(converted_text(t), marker_from(), i),
        forall|i: int| #[trigger] match_at(converted_text(t), marker_to(), i) <==> (match_at(
            t,
            marker_from(),
            i,
        ) || match_at(t, marker_to(), i)),
{
    lemma_marker_shape();
    lemma_replace_all_len(t, marker_from(), marker_to());
    lemma_replace_all_positions(t, marker_from(), marker_to());
}

/// Converting a text twice gives what converting it once gives: the first
/// pass leaves no incoming marker for the second to find.
pub proof fn lemma_convert_text_idempotent(t: Seq<char>)
    ensures
        converted_text(converted_text(t)) == converted_text(t),
{
    lemma_markers_rewritten(t);
    lemma_marker_shape();
    lemma_no_occurrence_identity(converted_text(t), marker_from(), marker_to());
}

/// Converting a file twice writes the same bytes as converting it once.
pub proof fn lemma_convert_bytes_idempotent(bs: Seq<u8>)
    ensures
        converted_bytes(converted_bytes(bs)) == converted_bytes(bs),
{
    lemma_decode_then_encode(bs);
    lemma_marker_shape();
    lemma_replace_preserves_encodable(decode_seq(bs), marker_from(), marker_to());
    lemma_encode_then_decode(converted_text(decode_seq(bs)));
    lemma_convert_text_idempotent(decode_seq(bs));
}

/// A file whose text holds no incoming marker is written back byte for byte
/// unchanged.
pub proof fn lemma_no_marker_unchanged(bs: Seq<u8>)
    requires
        occ_count(decode_seq(bs), marker_from()) == 0,
    ensures
        converted_bytes(bs) == bs,
{
    lemma_marker_shape();
    lemma_no_occurrence_identity(decode_seq(bs), marker_from(), marker_to());
    lemma_decode_then_encode(bs);
}

} // verus!
