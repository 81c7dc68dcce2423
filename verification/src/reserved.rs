use vstd::prelude::*;

verus! {

/// The reserved and noncharacter codepoints: the control ranges
/// `0x1..=0x8` and `0xE..=0x1F`, the range `0x7F..=0x9F`, the noncharacter
/// block `0xFDD0..=0xFDEF`, the standalone value `0xB`, and the two
/// noncharacters at the end of each of the seventeen planes
/// (`0xFFFE`/`0xFFFF` up to `0x10FFFE`/`0x10FFFF`).
pub open spec fn is_reserved_codepoint(n: u32) -> bool {
    ||| (0x1 <= n && n <= 0x8)
    ||| (0xE <= n && n <= 0x1F)
    ||| (0x7F <= n && n <= 0x9F)
    ||| (0xFDD0 <= n && n <= 0xFDEF)
    ||| n == 0xB
    ||| (n <= 0x10FFFF && n % 0x10000 >= 0xFFFE)
}

/// Decides whether a codepoint falls in one of the reserved or
/// noncharacter ranges; such a value is dropped by the decoder rather
/// than emitted.
pub fn in_reserved_number_range(codepoint: u32) -> (r: bool)
    ensures
        r == is_reserved_codepoint(codepoint),
{
    (0x1 <= codepoint && codepoint <= 0x8)
        || (0xE <= codepoint && codepoint <= 0x1F)
        || (0x7F <= codepoint && codepoint <= 0x9F)
        || (0xFDD0 <= codepoint && codepoint <= 0xFDEF)
        || codepoint == 0xB
        || (codepoint <= 0x10FFFF && codepoint % 0x10000 >= 0xFFFE)
}

} // verus!
