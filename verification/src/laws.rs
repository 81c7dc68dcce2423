use vstd::prelude::*;

use crate::decoder::entry_effect;
use crate::entities::NamedEntityView;
use crate::errors::ParseErrorKind;
use crate::numeric::digit_matches;
use crate::numeric::digit_run;
use crate::numeric::is_dec_digit;
use crate::numeric::numeric_effect;
use crate::numeric::radix_value;
use crate::numeric::scalar_emission;
use crate::replacements::legacy_replacement;
use crate::reserved::is_reserved_codepoint;
use crate::tokenizer::Tokenizer;

verus! {

/// The digit run of `s` is exactly `k` when the first `k` characters are
/// digits of the active mode and the next one, if any, is not.
proof fn lemma_digit_run_exact(s: Seq<char>, hex: bool, k: nat)
    requires
        k <= s.len(),
        forall|i: int| 0 <= i < k ==> digit_matches(#[trigger] s[i], hex),
        k < s.len() ==> !digit_matches(s[k as int], hex),
    ensures
        digit_run(s, hex) == k,
    decreases s.len(),
{
    if s.len() > 0 && digit_matches(s[0], hex) {
        assert(k >= 1);
        assert(forall|i: int|
            0 <= i < k - 1 ==> #[trigger] s.drop_first()[i] == s[i + 1]);
        lemma_digit_run_exact(s.drop_first(), hex, (k - 1) as nat);
    }
}

/// Any terminated numeric reference — an optional hex marker, one or more
/// digits of the active mode, then `;` — consumes through the semicolon
/// and resolves to the emission of its numeric value, a value past `u32`
/// falling back to zero.
pub proof fn lemma_numeric_reference_resolved(
    s: Seq<char>,
    ds: Seq<char>,
    rest: Seq<char>,
    hex: bool,
)
    requires
        ds.len() > 0,
        forall|i: int| 0 <= i < ds.len() ==> digit_matches(#[trigger] ds[i], hex),
        hex ==> s.len() > 0 && (s[0] == 'x' || s[0] == 'X') && s.skip(1) == ds + seq![';'] + rest,
        !hex ==> s == ds + seq![';'] + rest,
    ensures
        ({
            let v = radix_value(ds, hex);
            let num: u32 = if v > u32::MAX as nat {
                0u32
            } else {
                v as u32
            };
            let eff = numeric_effect(s);
            &&& eff.consumed == (if hex {
                1int
            } else {
                0int
            }) + ds.len() + 1
            &&& eff.emitted == scalar_emission(num).0
            &&& eff.errors == scalar_emission(num).1
        }),
{
    let marker: int = if hex {
        1
    } else {
        0
    };
    if !hex {
        assert(s[0] == ds[0]);
        assert(!(s[0] == 'x' || s[0] == 'X'));
        assert(s.skip(0) =~= s);
    }
    let body = s.skip(marker);
    assert(body =~= ds + seq![';'] + rest);
    assert(forall|i: int| 0 <= i < ds.len() ==> #[trigger] body[i] == ds[i]);
    assert(body[ds.len() as int] == ';');
    assert(!digit_matches(';', hex));
    lemma_digit_run_exact(body, hex, ds.len());
    assert(body.take(ds.len() as int) =~= ds);
}

/// Decoding a well-formed decimal reference `#<digits>;` whose value is a
/// plain scalar — neither reserved, nor in the legacy table, nor a
/// surrogate, nor past the last scalar — yields exactly the character
/// with that value, and no error, under any terminator argument that does
/// not suppress it.
pub proof fn lemma_decimal_reference_decodes(
    tbl: Seq<NamedEntityView>,
    allowed: Option<char>,
    ds: Seq<char>,
    rest: Seq<char>,
)
    requires
        allowed != Some('#'),
        ds.len() > 0,
        forall|i: int| 0 <= i < ds.len() ==> is_dec_digit(#[trigger] ds[i]),
        radix_value(ds, false) <= 0x10FFFF,
        !(0xD800 <= radix_value(ds, false) <= 0xDFFF),
        legacy_replacement(radix_value(ds, false) as u32) is None,
        !is_reserved_codepoint(radix_value(ds, false) as u32),
    ensures
        ({
            let v = radix_value(ds, false);
            let eff = entry_effect(tbl, allowed, seq!['#'] + ds + seq![';'] + rest);
            &&& eff.emitted == seq![(v as u32) as char]
            &&& eff.errors == Seq::<ParseErrorKind>::empty()
            &&& !eff.clears_buffer
            &&& eff.consumed == ds.len() + 2
        }),
{
    let s = seq!['#'] + ds + seq![';'] + rest;
    assert(s[0] == '#');
    assert(s.drop_first() =~= ds + seq![';'] + rest);
    lemma_numeric_reference_resolved(ds + seq![';'] + rest, ds, rest, false);
}

/// The surrogate-and-overflow guard and the reserved-range check run in
/// sequence, not as alternatives; no value satisfies both, so the append
/// of the first is never erased by the truncate of the second.
pub proof fn lemma_replace_and_reserved_disjoint(num: u32)
    ensures
        !(((0xD800 < num && num < 0xDFFF) || num > 0x10FFFF) && is_reserved_codepoint(num)),
{
    assert(num < 0x10000 ==> num % 0x10000 == num);
}

/// Decoding a decimal reference whose value has a legacy table entry
/// yields exactly the mapped replacement character, and no error.
pub proof fn lemma_legacy_value_substituted(ds: Seq<char>, rest: Seq<char>)
    requires
        ds.len() > 0,
        forall|i: int| 0 <= i < ds.len() ==> is_dec_digit(#[trigger] ds[i]),
        radix_value(ds, false) <= u32::MAX as nat,
        legacy_replacement(radix_value(ds, false) as u32) is Some,
    ensures
        ({
            let v = radix_value(ds, false);
            let eff = numeric_effect(ds + seq![';'] + rest);
            &&& eff.emitted == seq![legacy_replacement(v as u32)->0]
            &&& eff.errors == Seq::<ParseErrorKind>::empty()
            &&& eff.consumed == ds.len() + 1
        }),
{
    lemma_numeric_reference_resolved(ds + seq![';'] + rest, ds, rest, false);
}

/// Decoding a decimal reference whose value is reserved (and has no
/// legacy entry) emits nothing and records exactly one error.
pub proof fn lemma_reserved_value_dropped(ds: Seq<char>, rest: Seq<char>)
    requires
        ds.len() > 0,
        forall|i: int| 0 <= i < ds.len() ==> is_dec_digit(#[trigger] ds[i]),
        radix_value(ds, false) <= u32::MAX as nat,
        legacy_replacement(radix_value(ds, false) as u32) is None,
        is_reserved_codepoint(radix_value(ds, false) as u32),
    ensures
        ({
            let eff = numeric_effect(ds + seq![';'] + rest);
            &&& eff.emitted == Seq::<char>::empty()
            &&& eff.errors == seq![ParseErrorKind::CodepointIgnored]
            &&& eff.consumed == ds.len() + 1
        }),
{
    lemma_numeric_reference_resolved(ds + seq![';'] + rest, ds, rest, false);
    let num = radix_value(ds, false) as u32;
    assert(num < 0x10000 ==> num % 0x10000 == num);
    assert(!((0xD800 < num && num < 0xDFFF) || num > 0x10FFFF));
}

/// A reference with no digits before its semicolon — `&#;` or `&#x;` —
/// rolls the buffer back to the watermark and records exactly one error.
pub proof fn lemma_no_digits_error(s: Seq<char>)
    requires
        s.len() > 0,
        (s[0] == 'x' || s[0] == 'X') ==> s.len() > 1 && s[1] == ';',
        !(s[0] == 'x' || s[0] == 'X') ==> s[0] == ';',
    ensures
        ({
            let eff = numeric_effect(s);
            &&& eff.emitted == Seq::<char>::empty()
            &&& eff.errors == seq![ParseErrorKind::NoDigits]
        }),
{
    let hex = s[0] == 'x' || s[0] == 'X';
    let marker: int = if hex {
        1
    } else {
        0
    };
    let body = s.skip(marker);
    assert(body[0] == s[marker]);
    assert(!digit_matches(body[0], hex));
    assert(digit_run(body, hex) == 0);
}

/// A numeric reference whose digit run is followed by a character other
/// than `;` rolls the buffer back to the watermark and records exactly
/// one error. (When the input ends instead, the rollback happens with no
/// error recorded.)
pub proof fn lemma_missing_semicolon_error(s: Seq<char>)
    requires
        ({
            let hex = s.len() > 0 && (s[0] == 'x' || s[0] == 'X');
            let body = s.skip(
                if hex {
                    1int
                } else {
                    0int
                },
            );
            let d = digit_run(body, hex);
            d < body.len() && body[d as int] != ';'
        }),
    ensures
        ({
            let eff = numeric_effect(s);
            &&& eff.emitted == Seq::<char>::empty()
            &&& eff.errors == seq![ParseErrorKind::ExpectedSemicolon]
        }),
{
}

/// Decoding is a function of the unread input, the entity table and the
/// terminator argument alone: two tokenizers that agree on those see the
/// same cursor movement, the same characters emitted and the same errors
/// recorded, whatever their buffers, positions and earlier errors held.
pub proof fn lemma_decode_deterministic(a: Tokenizer, b: Tokenizer, allowed: Option<char>)
    requires
        a.remaining() == b.remaining(),
        a.entities@ == b.entities@,
    ensures
        entry_effect(a.entities@, allowed, a.remaining()) == entry_effect(
            b.entities@,
            allowed,
            b.remaining(),
        ),
{
}

/// When the supplied terminator immediately follows the ampersand, no
/// reference is decoded: the cursor does not move on balance, the buffer
/// is cleared, and no error is recorded.
pub proof fn lemma_terminator_suppression(tbl: Seq<NamedEntityView>, s: Seq<char>, term: char)
    requires
        s.len() > 0,
        s[0] == term,
    ensures
        ({
            let eff = entry_effect(tbl, Some(term), s);
            &&& eff.consumed == 0
            &&& eff.clears_buffer
            &&& eff.emitted == Seq::<char>::empty()
            &&& eff.errors == Seq::<ParseErrorKind>::empty()
        }),
{
}

} // verus!
