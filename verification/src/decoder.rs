use vstd::prelude::*;

use crate::entities::NamedEntityView;
use crate::errors::ParseErrorKind;
use crate::named::consume_anything_else;
use crate::named::named_effect;
use crate::numeric::consume_dash_entity;
use crate::numeric::numeric_effect;
use crate::tokenizer::CHAR_FF;
use crate::tokenizer::CHAR_LF;
use crate::tokenizer::CHAR_TAB;
use crate::tokenizer::Tokenizer;

verus! {

/// The net effect of one call of the character-reference decoder: how far
/// the stream cursor moved, whether the consume buffer was reset to
/// empty, what was appended past that point, and which errors were
/// recorded.
pub ghost struct EntryEffect {
    pub consumed: nat,
    pub clears_buffer: bool,
    pub emitted: Seq<char>,
    pub errors: Seq<ParseErrorKind>,
}

/// The effect of decoding one character reference from the unread input
/// `s`, with the stream standing right after the ampersand. The end of
/// the input and a match with the supplied terminator both clear the
/// buffer and leave the cursor where it stood; tab, line feed and form
/// feed are left for the caller to reprocess; `#` hands over to the
/// numeric decoder and anything else to the named decoder.
pub open spec fn entry_effect(
    tbl: Seq<NamedEntityView>,
    allowed: Option<char>,
    s: Seq<char>,
) -> EntryEffect {
    if s.len() == 0 {
        EntryEffect {
            consumed: 0,
            clears_buffer: true,
            emitted: Seq::<char>::empty(),
            errors: Seq::<ParseErrorKind>::empty(),
        }
    } else {
        let c = s[0];
        if allowed == Some(c) {
            EntryEffect {
                consumed: 0,
                clears_buffer: true,
                emitted: Seq::<char>::empty(),
                errors: Seq::<ParseErrorKind>::empty(),
            }
        } else if c == CHAR_TAB || c == CHAR_LF || c == CHAR_FF {
            EntryEffect {
                consumed: 1,
                clears_buffer: false,
                emitted: Seq::<char>::empty(),
                errors: Seq::<ParseErrorKind>::empty(),
            }
        } else if c == '#' {
            let eff = numeric_effect(s.drop_first());
            EntryEffect {
                consumed: 1 + eff.consumed,
                clears_buffer: false,
                emitted: eff.emitted,
                errors: eff.errors,
            }
        } else {
            let eff = named_effect(tbl, allowed is Some, c, s.drop_first());
            EntryEffect {
                consumed: 1 + eff.consumed,
                clears_buffer: false,
                emitted: eff.emitted,
                errors: eff.errors,
            }
        }
    }
}

/// Decode zero or one character reference, the stream standing right
/// after an ampersand, and append its expansion to the consume buffer.
/// `additional_allowed_char` is the optional terminator supplied when
/// decoding inside an attribute value: meeting it right away pushes it
/// back and suppresses the reference. The net effect on the tokenizer is
/// exactly [`entry_effect`] of the unread input.
pub fn consume_character_reference(t: &mut Tokenizer, additional_allowed_char: Option<char>)
    requires
        old(t).wf(),
    ensures
        final(t).wf(),
        final(t).stream.chars@ == old(t).stream.chars@,
        final(t).entities == old(t).entities,
        ({
            let eff = entry_effect(old(t).entities@, additional_allowed_char, old(t).remaining());
            &&& final(t).stream.pos == old(t).stream.pos + eff.consumed
            &&& final(t).consume_buffer@ == (if eff.clears_buffer {
                Seq::<char>::empty()
            } else {
                old(t).consume_buffer@
            }) + eff.emitted
            &&& final(t).errors@ == old(t).errors@ + eff.errors
        }),
{
    let ghost s = old(t).remaining();
    let r = t.stream.read_char();
    let c = match r {
        None => {
            // Nothing after the ampersand: hard abort, the caller treats
            // the ampersand as literal text.
            t.clear_consume_buffer();
            proof {
                assert(t.consume_buffer@ =~= Seq::<char>::empty() + Seq::<char>::empty());
                assert(t.errors@ =~= old(t).errors@ + Seq::<ParseErrorKind>::empty());
            }
            return ;
        },
        Some(c) => c,
    };
    let suppress = match additional_allowed_char {
        Some(a) => c == a,
        None => false,
    };
    if suppress {
        // The supplied terminator follows right away: push it back and
        // take no reference.
        t.stream.unread();
        t.clear_consume_buffer();
        proof {
            assert(t.consume_buffer@ =~= Seq::<char>::empty() + Seq::<char>::empty());
            assert(t.errors@ =~= old(t).errors@ + Seq::<ParseErrorKind>::empty());
        }
        return ;
    }
    if c == CHAR_TAB || c == CHAR_LF || c == CHAR_FF {
        // These never start a reference; the caller reprocesses them.
        proof {
            assert(t.consume_buffer@ =~= old(t).consume_buffer@ + Seq::<char>::empty());
            assert(t.errors@ =~= old(t).errors@ + Seq::<ParseErrorKind>::empty());
        }
        return ;
    }
    proof {
        assert(t.remaining() =~= s.drop_first());
    }
    if c == '#' {
        consume_dash_entity(t);
        return ;
    }
    consume_anything_else(t, c, additional_allowed_char.is_some());
}

} // verus!
