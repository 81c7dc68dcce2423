use charref::decoder::consume_character_reference;
use charref::entities::NamedEntityTable;
use charref::errors::ParseErrorKind;
use charref::tokenizer::Tokenizer;

fn tok(input: &str) -> Tokenizer {
    Tokenizer::new(input.chars().collect(), NamedEntityTable::new())
}

fn buffer_string(t: &Tokenizer) -> String {
    t.consume_buffer.iter().collect()
}

#[test]
fn decimal_scalar_decodes() {
    let mut t = tok("#65;");
    consume_character_reference(&mut t, None);
    assert_eq!(buffer_string(&t), "A");
    assert_eq!(t.errors, vec![]);
    assert_eq!(t.stream.pos, 4);
}

#[test]
fn hex_marker_lowercase() {
    let mut t = tok("#x41;");
    consume_character_reference(&mut t, None);
    assert_eq!(buffer_string(&t), "A");
    assert_eq!(t.errors, vec![]);
}

#[test]
fn hex_marker_uppercase() {
    let mut t = tok("#X41;");
    consume_character_reference(&mut t, None);
    assert_eq!(buffer_string(&t), "A");
    assert_eq!(t.errors, vec![]);
}

#[test]
fn hex_digits_either_case() {
    let mut t = tok("#x2603;");
    consume_character_reference(&mut t, None);
    assert_eq!(buffer_string(&t), "\u{2603}");
    let mut u = tok("#X2603;");
    consume_character_reference(&mut u, None);
    assert_eq!(buffer_string(&u), "\u{2603}");
}

#[test]
fn euro_from_legacy_table() {
    let mut t = tok("#128;");
    consume_character_reference(&mut t, None);
    assert_eq!(buffer_string(&t), "\u{20AC}");
    assert_eq!(t.errors, vec![]);
}

#[test]
fn legacy_hex_entry() {
    let mut t = tok("#x85;");
    consume_character_reference(&mut t, None);
    assert_eq!(buffer_string(&t), "\u{2026}");
    assert_eq!(t.errors, vec![]);
}

#[test]
fn no_digits_records_error() {
    let mut t = tok("#;");
    consume_character_reference(&mut t, None);
    assert_eq!(buffer_string(&t), "");
    assert_eq!(t.errors, vec![ParseErrorKind::NoDigits]);
}

#[test]
fn no_digits_hex_records_error() {
    let mut t = tok("#x;");
    consume_character_reference(&mut t, None);
    assert_eq!(buffer_string(&t), "");
    assert_eq!(t.errors, vec![ParseErrorKind::NoDigits]);
}

#[test]
fn nul_value_decodes_to_nul() {
    let mut t = tok("#0;");
    consume_character_reference(&mut t, None);
    assert_eq!(buffer_string(&t), "\u{0}");
    assert_eq!(t.errors, vec![]);
}

#[test]
fn reserved_value_dropped() {
    let mut t = tok("#1;");
    consume_character_reference(&mut t, None);
    assert_eq!(buffer_string(&t), "");
    assert_eq!(t.errors, vec![ParseErrorKind::CodepointIgnored]);
}

#[test]
fn reserved_noncharacter_dropped() {
    let mut t = tok("#xFDD0;");
    consume_character_reference(&mut t, None);
    assert_eq!(buffer_string(&t), "");
    assert_eq!(t.errors, vec![ParseErrorKind::CodepointIgnored]);
}

#[test]
fn code_page_gap_value_dropped_as_reserved() {
    // 0x81 is unassigned in the code page, so it has no legacy entry and
    // falls in the reserved range instead.
    let mut t = tok("#129;");
    consume_character_reference(&mut t, None);
    assert_eq!(buffer_string(&t), "");
    assert_eq!(t.errors, vec![ParseErrorKind::CodepointIgnored]);
}

#[test]
fn missing_semicolon_records_error() {
    let mut t = tok("#65x");
    consume_character_reference(&mut t, None);
    assert_eq!(buffer_string(&t), "");
    assert_eq!(t.errors, vec![ParseErrorKind::ExpectedSemicolon]);
    assert_eq!(t.stream.pos, 4);
}

#[test]
fn eof_after_digits_rolls_back_without_error() {
    let mut t = tok("#65");
    consume_character_reference(&mut t, None);
    assert_eq!(buffer_string(&t), "");
    assert_eq!(t.errors, vec![]);
}

#[test]
fn eof_immediately_clears_buffer() {
    let mut t = tok("");
    t.consume('q');
    consume_character_reference(&mut t, None);
    assert_eq!(buffer_string(&t), "");
    assert_eq!(t.errors, vec![]);
}

#[test]
fn surrogate_replaced() {
    let mut t = tok("#xD900;");
    consume_character_reference(&mut t, None);
    assert_eq!(buffer_string(&t), "\u{FFFD}");
    assert_eq!(t.errors, vec![ParseErrorKind::CodepointReplaced]);
}

#[test]
fn surrogate_range_low_end_replaced() {
    let mut t = tok("#xD800;");
    consume_character_reference(&mut t, None);
    assert_eq!(buffer_string(&t), "\u{FFFD}");
    assert_eq!(t.errors, vec![ParseErrorKind::CodepointReplaced]);
}

#[test]
fn beyond_last_scalar_replaced() {
    let mut t = tok("#x110000;");
    consume_character_reference(&mut t, None);
    assert_eq!(buffer_string(&t), "\u{FFFD}");
    assert_eq!(t.errors, vec![ParseErrorKind::CodepointReplaced]);
}

#[test]
fn overflow_falls_back_to_zero() {
    let mut t = tok("#4294967296;");
    consume_character_reference(&mut t, None);
    assert_eq!(buffer_string(&t), "\u{0}");
    assert_eq!(t.errors, vec![]);
}

#[test]
fn tab_leaves_buffer_unchanged() {
    let mut t = tok("\tx");
    t.consume('q');
    consume_character_reference(&mut t, None);
    assert_eq!(buffer_string(&t), "q");
    assert_eq!(t.errors, vec![]);
    assert_eq!(t.stream.pos, 1);
}

#[test]
fn terminator_suppresses_reference() {
    let mut t = tok("\"abc");
    t.consume('q');
    consume_character_reference(&mut t, Some('"'));
    assert_eq!(buffer_string(&t), "");
    assert_eq!(t.errors, vec![]);
    assert_eq!(t.stream.pos, 0);
}

#[test]
fn identical_inputs_decode_identically() {
    let mut a = tok("#x2603;");
    let mut b = tok("#x2603;");
    consume_character_reference(&mut a, None);
    consume_character_reference(&mut b, None);
    assert_eq!(a.consume_buffer, b.consume_buffer);
    assert_eq!(a.errors, b.errors);
    assert_eq!(a.stream.pos, b.stream.pos);
}
