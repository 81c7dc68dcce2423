use charref::decoder::consume_character_reference;
use charref::entities::NamedEntityTable;
use charref::errors::ParseErrorKind;
use charref::tokenizer::Tokenizer;

fn table() -> NamedEntityTable {
    let mut t = NamedEntityTable::new();
    t.add(vec!['a', 'm', 'p'], vec!['&'], true);
    t.add(vec!['n', 'o', 't'], vec!['\u{AC}'], true);
    t.add(vec!['n', 'o', 't', 'i', 'n'], vec!['\u{2209}'], false);
    t.add(vec!['f', 'j', 'l', 'i', 'g'], vec!['f', 'j'], false);
    t.add(vec!['p', 'a', 'r', 'a'], vec!['\u{B6}'], true);
    t.add(vec!['p', 'a', 'r', 'a', 'l', 'l', 'e', 'l'], vec!['\u{2225}'], false);
    t
}

fn tok(input: &str) -> Tokenizer {
    Tokenizer::new(input.chars().collect(), table())
}

fn buffer_string(t: &Tokenizer) -> String {
    t.consume_buffer.iter().collect()
}

#[test]
fn named_with_semicolon() {
    let mut t = tok("amp;");
    consume_character_reference(&mut t, None);
    assert_eq!(buffer_string(&t), "&");
    assert_eq!(t.errors, vec![]);
    assert_eq!(t.stream.pos, 4);
}

#[test]
fn named_longest_match_wins() {
    let mut t = tok("notin;");
    consume_character_reference(&mut t, None);
    assert_eq!(buffer_string(&t), "\u{2209}");
    assert_eq!(t.errors, vec![]);
}

#[test]
fn named_two_scalar_expansion() {
    let mut t = tok("fjlig;");
    consume_character_reference(&mut t, None);
    assert_eq!(buffer_string(&t), "fj");
    assert_eq!(t.errors, vec![]);
}

#[test]
fn legacy_without_semicolon_outside_attribute() {
    let mut t = tok("amp next");
    consume_character_reference(&mut t, None);
    assert_eq!(buffer_string(&t), "&");
    assert_eq!(t.errors, vec![ParseErrorKind::MissingSemicolonAfterName]);
    assert_eq!(t.stream.pos, 3);
}

#[test]
fn legacy_in_attribute_blocked_before_equals() {
    let mut t = tok("amp=1");
    consume_character_reference(&mut t, Some('"'));
    assert_eq!(buffer_string(&t), "amp");
    assert_eq!(t.errors, vec![ParseErrorKind::UnknownNamedReference]);
    assert_eq!(t.stream.pos, 3);
}

#[test]
fn legacy_in_attribute_allowed_before_space() {
    let mut t = tok("amp x");
    consume_character_reference(&mut t, Some('"'));
    assert_eq!(buffer_string(&t), "&");
    assert_eq!(t.errors, vec![ParseErrorKind::MissingSemicolonAfterName]);
}

#[test]
fn strict_name_without_semicolon_falls_back_to_legacy_prefix() {
    let mut t = tok("notin");
    consume_character_reference(&mut t, None);
    // `notin` needs its semicolon; the legacy `not` is taken instead and
    // the over-read `in` stays as literal text.
    assert_eq!(buffer_string(&t), "\u{AC}in");
    assert_eq!(t.errors, vec![ParseErrorKind::MissingSemicolonAfterName]);
    assert_eq!(t.stream.pos, 5);
}

#[test]
fn legacy_match_further_back_keeps_tail_as_text() {
    let mut t = tok("parallq");
    consume_character_reference(&mut t, None);
    // The run overshoots to `parall`; the longest legacy name `para` is
    // emitted and the over-read `ll` stays as literal text.
    assert_eq!(buffer_string(&t), "\u{B6}ll");
    assert_eq!(t.errors, vec![ParseErrorKind::MissingSemicolonAfterName]);
    assert_eq!(t.stream.pos, 6);
    assert_eq!(t.stream.chars[6], 'q');
}

#[test]
fn legacy_prefix_blocked_in_attribute() {
    let mut t = tok("parallq");
    consume_character_reference(&mut t, Some('"'));
    // Inside an attribute the character after `para` is alphanumeric, so
    // the legacy name may not be taken; the run stays as literal text.
    assert_eq!(buffer_string(&t), "parall");
    assert_eq!(t.errors, vec![ParseErrorKind::UnknownNamedReference]);
    assert_eq!(t.stream.pos, 6);
}

#[test]
fn legacy_match_one_step_back() {
    let mut t = tok("notix");
    consume_character_reference(&mut t, None);
    assert_eq!(buffer_string(&t), "\u{AC}");
    assert_eq!(t.errors, vec![ParseErrorKind::MissingSemicolonAfterName]);
    // The `i` read past the match was pushed back; `x` follows it.
    assert_eq!(t.stream.pos, 3);
    assert_eq!(t.stream.chars[t.stream.pos], 'i');
}

#[test]
fn unknown_single_char_keeps_literal_text() {
    let mut t = tok("q;");
    consume_character_reference(&mut t, None);
    assert_eq!(buffer_string(&t), "q");
    assert_eq!(t.errors, vec![ParseErrorKind::UnknownNamedReference]);
    assert_eq!(t.stream.pos, 1);
}

#[test]
fn empty_table_matches_nothing() {
    let mut t = Tokenizer::new("amp;".chars().collect(), NamedEntityTable::new());
    consume_character_reference(&mut t, None);
    assert_eq!(buffer_string(&t), "a");
    assert_eq!(t.errors, vec![ParseErrorKind::UnknownNamedReference]);
    assert_eq!(t.stream.pos, 1);
}
