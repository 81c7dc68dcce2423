use charref::replacements::legacy_lookup;
use charref::reserved::in_reserved_number_range;

#[test]
fn control_ranges_are_reserved() {
    assert!(!in_reserved_number_range(0x0));
    assert!(in_reserved_number_range(0x1));
    assert!(in_reserved_number_range(0x8));
    assert!(!in_reserved_number_range(0x9));
    assert!(!in_reserved_number_range(0xA));
    assert!(in_reserved_number_range(0xB));
    assert!(!in_reserved_number_range(0xC));
    assert!(!in_reserved_number_range(0xD));
    assert!(in_reserved_number_range(0xE));
    assert!(in_reserved_number_range(0x1F));
    assert!(!in_reserved_number_range(0x20));
}

#[test]
fn delete_and_c1_range_is_reserved() {
    assert!(!in_reserved_number_range(0x7E));
    assert!(in_reserved_number_range(0x7F));
    assert!(in_reserved_number_range(0x80));
    assert!(in_reserved_number_range(0x9F));
    assert!(!in_reserved_number_range(0xA0));
}

#[test]
fn noncharacter_block_is_reserved() {
    assert!(!in_reserved_number_range(0xFDCF));
    assert!(in_reserved_number_range(0xFDD0));
    assert!(in_reserved_number_range(0xFDEF));
    assert!(!in_reserved_number_range(0xFDF0));
}

#[test]
fn plane_end_noncharacters_are_reserved() {
    assert!(!in_reserved_number_range(0xFFFD));
    assert!(in_reserved_number_range(0xFFFE));
    assert!(in_reserved_number_range(0xFFFF));
    assert!(!in_reserved_number_range(0x10000));
    assert!(in_reserved_number_range(0x1FFFE));
    assert!(in_reserved_number_range(0x1FFFF));
    assert!(in_reserved_number_range(0x10FFFE));
    assert!(in_reserved_number_range(0x10FFFF));
    assert!(!in_reserved_number_range(0x110000));
    assert!(!in_reserved_number_range(0xD800));
}

#[test]
fn legacy_table_maps_windows_1252_values() {
    assert_eq!(legacy_lookup(0x80), Some('\u{20AC}'));
    assert_eq!(legacy_lookup(0x85), Some('\u{2026}'));
    assert_eq!(legacy_lookup(0x99), Some('\u{2122}'));
    assert_eq!(legacy_lookup(0x9F), Some('\u{178}'));
    assert_eq!(legacy_lookup(0x7F), None);
    assert_eq!(legacy_lookup(0xA0), None);
    assert_eq!(legacy_lookup(0x0), None);
}

#[test]
fn code_page_gaps_have_no_entry() {
    assert_eq!(legacy_lookup(0x81), None);
    assert_eq!(legacy_lookup(0x8D), None);
    assert_eq!(legacy_lookup(0x8F), None);
    assert_eq!(legacy_lookup(0x90), None);
    assert_eq!(legacy_lookup(0x9D), None);
}
