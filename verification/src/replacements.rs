use vstd::prelude::*;

verus! {

/// The legacy replacement table: numeric reference values that were
/// historically produced by documents encoded in Windows-1252, mapped to
/// the Unicode scalar they were meant to stand for. The five values in
/// `0x80..=0x9F` that the code page leaves unassigned (`0x81`, `0x8D`,
/// `0x8F`, `0x90`, `0x9D`) have no entry and fall through to the
/// reserved-range check, as does every value outside `0x80..=0x9F`.
pub open spec fn legacy_replacement(n: u32) -> Option<char> {
    if n == 0x80 {
        Some('\u{20AC}')
    } else if n == 0x82 {
        Some('\u{201A}')
    } else if n == 0x83 {
        Some('\u{192}')
    } else if n == 0x84 {
        Some('\u{201E}')
    } else if n == 0x85 {
        Some('\u{2026}')
    } else if n == 0x86 {
        Some('\u{2020}')
    } else if n == 0x87 {
        Some('\u{2021}')
    } else if n == 0x88 {
        Some('\u{2C6}')
    } else if n == 0x89 {
        Some('\u{2030}')
    } else if n == 0x8A {
        Some('\u{160}')
    } else if n == 0x8B {
        Some('\u{2039}')
    } else if n == 0x8C {
        Some('\u{152}')
    } else if n == 0x8E {
        Some('\u{17D}')
    } else if n == 0x91 {
        Some('\u{2018}')
    } else if n == 0x92 {
        Some('\u{2019}')
    } else if n == 0x93 {
        Some('\u{201C}')
    } else if n == 0x94 {
        Some('\u{201D}')
    } else if n == 0x95 {
        Some('\u{2022}')
    } else if n == 0x96 {
        Some('\u{2013}')
    } else if n == 0x97 {
        Some('\u{2014}')
    } else if n == 0x98 {
        Some('\u{2DC}')
    } else if n == 0x99 {
        Some('\u{2122}')
    } else if n == 0x9A {
        Some('\u{161}')
    } else if n == 0x9B {
        Some('\u{203A}')
    } else if n == 0x9C {
        Some('\u{153}')
    } else if n == 0x9E {
        Some('\u{17E}')
    } else if n == 0x9F {
        Some('\u{178}')
    } else {
        None
    }
}

/// Exact-match lookup in the legacy replacement table.
pub fn legacy_lookup(n: u32) -> (r: Option<char>)
    ensures
        r == legacy_replacement(n),
{
    if n == 0x80 {
        Some('\u{20AC}')
    } else if n == 0x82 {
        Some('\u{201A}')
    } else if n == 0x83 {
        Some('\u{192}')
    } else if n == 0x84 {
        Some('\u{201E}')
    } else if n == 0x85 {
        Some('\u{2026}')
    } else if n == 0x86 {
        Some('\u{2020}')
    } else if n == 0x87 {
        Some('\u{2021}')
    } else if n == 0x88 {
        Some('\u{2C6}')
    } else if n == 0x89 {
        Some('\u{2030}')
    } else if n == 0x8A {
        Some('\u{160}')
    } else if n == 0x8B {
        Some('\u{2039}')
    } else if n == 0x8C {
        Some('\u{152}')
    } else if n == 0x8E {
        Some('\u{17D}')
    } else if n == 0x91 {
        Some('\u{2018}')
    } else if n == 0x92 {
        Some('\u{2019}')
    } else if n == 0x93 {
        Some('\u{201C}')
    } else if n == 0x94 {
        Some('\u{201D}')
    } else if n == 0x95 {
        Some('\u{2022}')
    } else if n == 0x96 {
        Some('\u{2013}')
    } else if n == 0x97 {
        Some('\u{2014}')
    } else if n == 0x98 {
        Some('\u{2DC}')
    } else if n == 0x99 {
        Some('\u{2122}')
    } else if n == 0x9A {
        Some('\u{161}')
    } else if n == 0x9B {
        Some('\u{203A}')
    } else if n == 0x9C {
        Some('\u{153}')
    } else if n == 0x9E {
        Some('\u{17E}')
    } else if n == 0x9F {
        Some('\u{178}')
    } else {
        None
    }
}

} // verus!
