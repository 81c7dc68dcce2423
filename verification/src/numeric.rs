use vstd::prelude::*;

use crate::errors::ParseErrorKind;
use crate::replacements::legacy_lookup;
use crate::replacements::legacy_replacement;
use crate::reserved::in_reserved_number_range;
use crate::reserved::is_reserved_codepoint;
use crate::tokenizer::CHAR_REPLACEMENT;
use crate::tokenizer::DecodeEffect;
use crate::tokenizer::Tokenizer;

verus! {

/// Decimal digits.
pub open spec fn is_dec_digit(c: char) -> bool {
    0x30 <= c as u32 && c as u32 <= 0x39
}

/// Hexadecimal digits, either case.
pub open spec fn is_hex_digit(c: char) -> bool {
    let v = c as u32;
    (0x30 <= v && v <= 0x39) || (0x41 <= v && v <= 0x46) || (0x61 <= v && v <= 0x66)
}

/// Whether `c` is a digit of the active mode.
pub open spec fn digit_matches(c: char, hex: bool) -> bool {
    if hex {
        is_hex_digit(c)
    } else {
        is_dec_digit(c)
    }
}

/// The numeric value of one digit.
pub open spec fn digit_value(c: char) -> nat {
    let v = c as u32;
    if 0x30 <= v && v <= 0x39 {
        (v - 0x30) as nat
    } else if 0x41 <= v && v <= 0x46 {
        (v - 0x37) as nat
    } else if 0x61 <= v && v <= 0x66 {
        (v - 0x57) as nat
    } else {
        0
    }
}

/// The length of the longest prefix of `s` made of digits of the active
/// mode.
pub open spec fn digit_run(s: Seq<char>, hex: bool) -> nat
    decreases s.len(),
{
    if s.len() > 0 && digit_matches(s[0], hex) {
        1 + digit_run(s.drop_first(), hex)
    } else {
        0
    }
}

/// The value of a digit string read in the active radix, unbounded.
pub open spec fn radix_value(s: Seq<char>, hex: bool) -> nat
    decreases s.len(),
{
    if s.len() == 0 {
        0
    } else {
        radix_value(s.drop_last(), hex) * (if hex {
            16nat
        } else {
            10nat
        }) + digit_value(s.last())
    }
}

/// What a parsed numeric value produces: first the legacy substitution,
/// then the guard for surrogates and values past the last scalar, then the
/// reserved-range check, and only past all three the plain append. The two
/// surrogate range ends escape the strict guard but name no scalar, so they
/// too come out as the replacement character.
pub open spec fn scalar_emission(num: u32) -> (Seq<char>, Seq<ParseErrorKind>) {
    match legacy_replacement(num) {
        Some(c) => (seq![c], Seq::<ParseErrorKind>::empty()),
        None => {
            if (0xD800 < num && num < 0xDFFF) || num > 0x10FFFF {
                (seq![CHAR_REPLACEMENT], seq![ParseErrorKind::CodepointReplaced])
            } else if is_reserved_codepoint(num) {
                (Seq::<char>::empty(), seq![ParseErrorKind::CodepointIgnored])
            } else if num == 0xD800 || num == 0xDFFF {
                (seq![CHAR_REPLACEMENT], seq![ParseErrorKind::CodepointReplaced])
            } else {
                (seq![num as char], Seq::<ParseErrorKind>::empty())
            }
        },
    }
}

/// The full effect of the numeric decoder on a tokenizer whose unread
/// input is `s`, the stream as it stands right after the `#` was
/// recognized: an optional case-insensitive hex marker, the longest digit
/// run, then the terminator candidate. The end of the input rolls
/// everything back without an error; a terminator other than `;` and an
/// empty digit run roll back with one error each; otherwise the digit
/// string is read in the active radix (a value past `u32` falls back to
/// zero) and handed to [`scalar_emission`].
pub open spec fn numeric_effect(s: Seq<char>) -> DecodeEffect {
    let hex = s.len() > 0 && (s[0] == 'x' || s[0] == 'X');
    let marker: nat = if hex {
        1nat
    } else {
        0nat
    };
    let body = s.skip(marker as int);
    let d = digit_run(body, hex);
    if d >= body.len() {
        DecodeEffect {
            consumed: marker + d,
            emitted: Seq::<char>::empty(),
            errors: Seq::<ParseErrorKind>::empty(),
        }
    } else {
        let term = body[d as int];
        let consumed = marker + d + 1;
        if term != ';' {
            DecodeEffect {
                consumed,
                emitted: Seq::<char>::empty(),
                errors: seq![ParseErrorKind::ExpectedSemicolon],
            }
        } else if d == 0 {
            DecodeEffect {
                consumed,
                emitted: Seq::<char>::empty(),
                errors: seq![ParseErrorKind::NoDigits],
            }
        } else {
            let v = radix_value(body.take(d as int), hex);
            let num: u32 = if v > u32::MAX as nat {
                0
            } else {
                v as u32
            };
            DecodeEffect { consumed, emitted: scalar_emission(num).0, errors: scalar_emission(num).1 }
        }
    }
}

/// Relies on char::from_u32: it returns `Some` exactly for the Unicode
/// scalar values (below the surrogate block, or past it up to 0x10FFFF),
/// and the character returned carries the requested value.
pub assume_specification[ char::from_u32 ](n: u32) -> (r: Option<char>)
    ensures
        r is Some <==> (n < 0xD800 || (0xDFFF < n && n <= 0x10FFFF)),
        match r {
            Some(c) => c as u32 == n,
            None => true,
        },
;

/// Decides whether `c` is a digit of the active mode.
fn digit_ok(c: char, hex: bool) -> (r: bool)
    ensures
        r == digit_matches(c, hex),
{
    let v = c as u32;
    if hex {
        (0x30 <= v && v <= 0x39) || (0x41 <= v && v <= 0x46) || (0x61 <= v && v <= 0x66)
    } else {
        0x30 <= v && v <= 0x39
    }
}

/// The numeric value of one digit.
fn digit_val(c: char) -> (r: u32)
    ensures
        r as nat == digit_value(c),
        r <= 15,
{
    let v = c as u32;
    if 0x30 <= v && v <= 0x39 {
        v - 0x30
    } else if 0x41 <= v && v <= 0x46 {
        v - 0x37
    } else if 0x61 <= v && v <= 0x66 {
        v - 0x57
    } else {
        0
    }
}

/// Decode a numeric reference: parse `#[xX]<digits>;` with the `#`
/// recognized by the caller but not yet appended, and append the decoded
/// scalar (or its mandated replacement) to the consume buffer; on
/// malformed input the buffer is rolled back to the watermark taken
/// before the `#` was appended. The net effect on the tokenizer is
/// exactly [`numeric_effect`] of the unread input.
pub fn consume_dash_entity(t: &mut Tokenizer)
    requires
        old(t).wf(),
    ensures
        final(t).wf(),
        final(t).stream.chars@ == old(t).stream.chars@,
        final(t).entities == old(t).entities,
        ({
            let eff = numeric_effect(old(t).remaining());
            &&& final(t).stream.pos == old(t).stream.pos + eff.consumed
            &&& final(t).consume_buffer@ == old(t).consume_buffer@ + eff.emitted
            &&& final(t).errors@ == old(t).errors@ + eff.errors
        }),
{
    let ghost s = old(t).remaining();

    // The rollback watermark, taken before the `#` is appended.
    let len = t.get_consume_len();
    t.consume('#');

    // A leading `x` or `X` switches to hexadecimal mode and is consumed.
    let la = t.stream.look_ahead();
    let is_hex = match la {
        Some(c) => c == 'x' || c == 'X',
        None => false,
    };
    if is_hex {
        let m = t.stream.read_char();
        match m {
            Some(mc) => {
                t.consume(mc);
            },
            None => {
                proof {
                    assert(false);
                }
            },
        }
    }
    let ghost marker: int = if is_hex {
        1
    } else {
        0
    };
    let ghost body = s.skip(marker);
    let ghost hdr: Seq<char> = if is_hex {
        seq!['#', s[0]]
    } else {
        seq!['#']
    };
    proof {
        assert(t.remaining() =~= body);
        assert(t.consume_buffer@ =~= old(t).consume_buffer@ + hdr);
        assert(body.skip(0) =~= body);
        assert(body.take(0) =~= Seq::<char>::empty());
    }

    // Consume the digit run, accumulating its value; a value past `u32`
    // only sets the overflow flag, digits keep being consumed.
    let ghost base_pos = t.stream.pos as int;
    let mut count: usize = 0;
    let mut acc: u32 = 0;
    let mut overflowed = false;
    loop
        invariant
            t.wf(),
            t.stream.chars@ == old(t).stream.chars@,
            t.entities == old(t).entities,
            t.errors@ == old(t).errors@,
            count <= body.len(),
            t.stream.pos == base_pos + count,
            base_pos == old(t).stream.pos + marker,
            marker == if is_hex { 1int } else { 0int },
            body == s.skip(marker),
            s == old(t).remaining(),
            t.remaining() == body.skip(count as int),
            digit_run(body, is_hex) == count + digit_run(body.skip(count as int), is_hex),
            t.consume_buffer@ == old(t).consume_buffer@ + hdr + body.take(count as int),
            hdr.len() == 1 + marker,
            overflowed == (radix_value(body.take(count as int), is_hex) > u32::MAX as nat),
            !overflowed ==> acc as nat == radix_value(body.take(count as int), is_hex),
        ensures
            t.wf(),
            t.stream.chars@ == old(t).stream.chars@,
            t.entities == old(t).entities,
            t.errors@ == old(t).errors@,
            count <= body.len(),
            t.stream.pos == base_pos + count,
            t.remaining() == body.skip(count as int),
            count == digit_run(body, is_hex),
            t.consume_buffer@ == old(t).consume_buffer@ + hdr + body.take(count as int),
            overflowed == (radix_value(body.take(count as int), is_hex) > u32::MAX as nat),
            !overflowed ==> acc as nat == radix_value(body.take(count as int), is_hex),
        decreases body.len() - count,
    {
        let la2 = t.stream.look_ahead();
        let c = match la2 {
            None => {
                proof {
                    assert(body.skip(count as int).len() == 0);
                }
                break ;
            },
            Some(c) => c,
        };
        if !digit_ok(c, is_hex) {
            proof {
                assert(body.skip(count as int)[0] == c);
                assert(digit_run(body.skip(count as int), is_hex) == 0);
            }
            break ;
        }
        let r = t.stream.read_char();
        match r {
            Some(rc) => {
                t.consume(rc);
            },
            None => {
                proof {
                    assert(false);
                }
            },
        }
        let d = digit_val(c);
        proof {
            assert(body.skip(count as int)[0] == c);
            assert(body[count as int] == c);
            assert(body.skip(count as int).drop_first() =~= body.skip(count as int + 1));
            assert(body.take(count as int + 1).drop_last() =~= body.take(count as int));
            assert(body.take(count as int + 1).last() == c);
            assert(t.remaining() =~= body.skip(count as int + 1));
            assert(t.consume_buffer@ =~= old(t).consume_buffer@ + hdr + body.take(count as int + 1));
        }
        let ghost v0 = radix_value(body.take(count as int), is_hex);
        let ghost rdx: nat = if is_hex {
            16nat
        } else {
            10nat
        };
        proof {
            assert(radix_value(body.take(count as int + 1), is_hex) == v0 * rdx + digit_value(c));
        }
        if !overflowed {
            let wide: u64 = if is_hex {
                (acc as u64) * 16 + (d as u64)
            } else {
                (acc as u64) * 10 + (d as u64)
            };
            if wide > 0xFFFF_FFFFu64 {
                overflowed = true;
            } else {
                acc = wide as u32;
            }
        } else {
            proof {
                assert(v0 <= v0 * rdx) by (nonlinear_arith)
                    requires
                        rdx >= 1,
                ;
            }
        }
        count = count + 1;
    }

    // The terminator candidate: the first character past the digit run.
    let term = t.stream.read_char();
    let tc = match term {
        None => {
            // The input ended: the whole reference is void, roll back.
            t.set_consume_len(len);
            proof {
                assert(count == body.len());
                assert(t.consume_buffer@ =~= old(t).consume_buffer@);
                assert(t.errors@ =~= old(t).errors@ + Seq::<ParseErrorKind>::empty());
                assert(t.consume_buffer@ =~= old(t).consume_buffer@ + Seq::<
                    char,
                >::empty());
            }
            return ;
        },
        Some(c) => c,
    };
    proof {
        assert(count < body.len());
        assert(body.skip(count as int)[0] == body[count as int]);
        assert(tc == body[count as int]);
    }
    if tc != ';' {
        t.parse_error(ParseErrorKind::ExpectedSemicolon);
        t.set_consume_len(len);
        proof {
            assert(t.consume_buffer@ =~= old(t).consume_buffer@ + Seq::<char>::empty());
            assert(t.errors@ =~= old(t).errors@ + seq![ParseErrorKind::ExpectedSemicolon]);
        }
        return ;
    }
    if count == 0 {
        t.parse_error(ParseErrorKind::NoDigits);
        t.set_consume_len(len);
        proof {
            assert(t.consume_buffer@ =~= old(t).consume_buffer@ + Seq::<char>::empty());
            assert(t.errors@ =~= old(t).errors@ + seq![ParseErrorKind::NoDigits]);
        }
        return ;
    }

    // The digit string as a number; a value past `u32` falls back to zero.
    let num: u32 = if overflowed {
        0
    } else {
        acc
    };

    // Legacy substitution ends the decode successfully.
    let rep = legacy_lookup(num);
    match rep {
        Some(rc) => {
            t.set_consume_len(len);
            t.consume(rc);
            proof {
                assert(t.consume_buffer@ =~= old(t).consume_buffer@ + seq![rc]);
                assert(t.errors@ =~= old(t).errors@ + Seq::<ParseErrorKind>::empty());
            }
            return ;
        },
        None => {},
    }

    // The surrogate and overflow guard, then the reserved-range check,
    // evaluated in sequence; no value satisfies both.
    proof {
        if ((num > 0xD800 && num < 0xDFFF) || num > 0x10FFFF) && is_reserved_codepoint(num) {
            assert(num < 0x10000 ==> num % 0x10000 == num);
            assert(false);
        }
    }
    let mut handled = false;
    if (num > 0xD800 && num < 0xDFFF) || num > 0x10FFFF {
        t.set_consume_len(len);
        t.parse_error(ParseErrorKind::CodepointReplaced);
        t.consume(CHAR_REPLACEMENT);
        handled = true;
    }
    if in_reserved_number_range(num) {
        t.set_consume_len(len);
        t.parse_error(ParseErrorKind::CodepointIgnored);
        handled = true;
    }
    if !handled {
        // A valid scalar: emit it. The two surrogate range ends name no
        // scalar and come out as the replacement character instead.
        t.set_consume_len(len);
        let decoded = char::from_u32(num);
        match decoded {
            Some(ch) => {
                t.consume(ch);
                proof {
                    vstd::utf8::char_u32_cast(ch, num);
                    assert(t.consume_buffer@ =~= old(t).consume_buffer@ + seq![ch]);
                    assert(t.errors@ =~= old(t).errors@ + Seq::<ParseErrorKind>::empty());
                }
            },
            None => {
                t.parse_error(ParseErrorKind::CodepointReplaced);
                t.consume(CHAR_REPLACEMENT);
                proof {
                    assert(num == 0xD800 || num == 0xDFFF);
                    assert(t.consume_buffer@ =~= old(t).consume_buffer@ + seq![
                        CHAR_REPLACEMENT,
                    ]);
                    assert(t.errors@ =~= old(t).errors@ + seq![
                        ParseErrorKind::CodepointReplaced,
                    ]);
                }
            },
        }
    } else {
        proof {
            assert(t.consume_buffer@ == old(t).consume_buffer@ + numeric_effect(s).emitted);
            assert(t.errors@ =~= old(t).errors@ + numeric_effect(s).errors);
        }
    }
}

} // verus!
