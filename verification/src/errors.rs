use vstd::prelude::*;

verus! {

/// A non-fatal diagnostic recorded while decoding; it never stops the
/// decoder, it is only appended to the tokenizer's error list.
#[derive(Clone, Copy, Debug, PartialEq, Eq, Structural)]
pub enum ParseErrorKind {
    /// A numeric reference was not closed by `;`.
    ExpectedSemicolon,
    /// A numeric reference held no digits at all (`&#;` or `&#x;`).
    NoDigits,
    /// The numeric value was a surrogate or lay beyond the last Unicode
    /// scalar; the replacement character was emitted in its place.
    CodepointReplaced,
    /// The numeric value fell in a reserved or noncharacter range; nothing
    /// was emitted.
    CodepointIgnored,
    /// A named reference matched a legacy name without its closing `;`.
    MissingSemicolonAfterName,
    /// No entry of the entity table matched the consumed name.
    UnknownNamedReference,
}

} // verus!
