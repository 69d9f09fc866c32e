use vcard_conv::convert::convert_card;
use vcard_conv::convert::marker_from_vec;
use vcard_conv::convert::marker_to_vec;
use vcard_conv::rewrite::matches_at;
use vcard_conv::rewrite::replace_all;

#[test]
fn card_with_marker_is_rewritten() {
    let input = b"BEGIN:VCARD\nVERSION:4.0\nEND:VCARD".to_vec();
    let expected = b"BEGIN:VCARD\nVERSION:3.0\nEND:VCARD".to_vec();
    assert_eq!(convert_card(&input), expected);
}

#[test]
fn card_without_marker_is_unchanged() {
    let input = b"BEGIN:VCARD\nFN:Jane Doe\nEND:VCARD".to_vec();
    assert_eq!(convert_card(&input), input);
}

#[test]
fn empty_file_stays_empty() {
    let input: Vec<u8> = Vec::new();
    assert_eq!(convert_card(&input), Vec::<u8>::new());
}

#[test]
fn every_occurrence_is_replaced() {
    let input = b"VERSION:4.0 text VERSION:4.0\nVERSION:4.0".to_vec();
    let expected = b"VERSION:3.0 text VERSION:3.0\nVERSION:3.0".to_vec();
    assert_eq!(convert_card(&input), expected);
}

#[test]
fn existing_target_markers_are_kept() {
    let input = b"VERSION:3.0 and VERSION:4.0".to_vec();
    let expected = b"VERSION:3.0 and VERSION:3.0".to_vec();
    assert_eq!(convert_card(&input), expected);
}

#[test]
fn partial_markers_are_left_alone() {
    let input = b"VERSION:4 VERSION4.0 version:4.0 ERSION:4.0".to_vec();
    assert_eq!(convert_card(&input), input);
}

#[test]
fn converting_twice_equals_converting_once() {
    let input = b"BEGIN:VCARD\nVERSION:4.0\nN:M\xfcller\nEND:VCARD".to_vec();
    let once = convert_card(&input);
    let twice = convert_card(&once);
    assert_eq!(twice, once);
}

#[test]
fn non_ascii_bytes_round_trip() {
    // One byte from each region of the table: ASCII, the 0x80..=0x9F block
    // (euro sign, unassigned-looking controls, y with diaeresis), and the
    // 0xA0..=0xFF run.
    let input = vec![0x00, 0x41, 0x7F, 0x80, 0x81, 0x8D, 0x9F, 0xA0, 0xE4, 0xFF];
    assert_eq!(convert_card(&input), input);
}

#[test]
fn marker_between_non_ascii_text_is_rewritten() {
    // "K<a-umlaut>se VERSION:4.0 <euro>" in windows-1252.
    let input = b"K\xe4se VERSION:4.0 \x80".to_vec();
    let expected = b"K\xe4se VERSION:3.0 \x80".to_vec();
    assert_eq!(convert_card(&input), expected);
}

#[test]
fn replace_all_is_greedy_left_to_right() {
    let s: Vec<char> = "aaa".chars().collect();
    let p: Vec<char> = "aa".chars().collect();
    let r: Vec<char> = "b".chars().collect();
    let out = replace_all(&s, &p, &r);
    let expected: Vec<char> = "ba".chars().collect();
    assert_eq!(out, expected);
}

#[test]
fn replace_all_skips_over_replacements() {
    let s: Vec<char> = "VERSIONVERSION:4.0:4.0".chars().collect();
    let out = replace_all(&s, &marker_from_vec(), &marker_to_vec());
    let expected: Vec<char> = "VERSIONVERSION:3.0:4.0".chars().collect();
    assert_eq!(out, expected);
}

#[test]
fn matches_at_finds_the_marker_position() {
    let s: Vec<char> = "xVERSION:4.0".chars().collect();
    let p = marker_from_vec();
    assert!(!matches_at(&s, &p, 0));
    assert!(matches_at(&s, &p, 1));
    assert!(!matches_at(&s, &p, 2));
}

#[test]
fn marker_texts_spell_the_markers() {
    let from: String = marker_from_vec().into_iter().collect();
    let to: String = marker_to_vec().into_iter().collect();
    assert_eq!(from, "VERSION:4.0");
    assert_eq!(to, "VERSION:3.0");
}
