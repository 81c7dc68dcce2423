use vstd::prelude::*;

use crate::entities::NamedEntityTable;
use crate::errors::ParseErrorKind;
use crate::stream::CharStream;

verus! {

/// Horizontal tab; it never starts a reference.
pub const CHAR_TAB: char = '\u{9}';

/// Line feed; it never starts a reference.
pub const CHAR_LF: char = '\u{A}';

/// Form feed; it never starts a reference.
pub const CHAR_FF: char = '\u{C}';

/// The Unicode replacement character, emitted for values no scalar
/// exists for.
pub const CHAR_REPLACEMENT: char = '\u{FFFD}';

/// The net effect of one decode step on the tokenizer: how many
/// characters it consumed from the stream, what it left appended past the
/// buffer watermark taken at its start, and which errors it recorded.
pub ghost struct DecodeEffect {
    pub consumed: nat,
    pub emitted: Seq<char>,
    pub errors: Seq<ParseErrorKind>,
}

/// The tokenizer state the decoder works on: the input stream, the
/// append-only consume buffer with its truncate-to-watermark rollback,
/// the recorded parse errors, and the entity table named references are
/// matched against.
pub struct Tokenizer {
    pub stream: CharStream,
    pub consume_buffer: Vec<char>,
    pub errors: Vec<ParseErrorKind>,
    pub entities: NamedEntityTable,
}

impl Tokenizer {
    pub open spec fn wf(self) -> bool {
        &&& self.stream.wf()
        &&& self.entities.wf()
    }

    /// The input that has not been read yet.
    pub open spec fn remaining(self) -> Seq<char> {
        self.stream.remaining()
    }

    /// A tokenizer at the start of the given input, with an empty consume
    /// buffer and no recorded errors.
    pub fn new(input: Vec<char>, entities: NamedEntityTable) -> (t: Tokenizer)
        requires
            entities.wf(),
        ensures
            t.wf(),
            t.stream.chars@ == input@,
            t.stream.pos == 0,
            t.consume_buffer@ == Seq::<char>::empty(),
            t.errors@ == Seq::<ParseErrorKind>::empty(),
            t.entities == entities,
    {
        Tokenizer {
            stream: CharStream::new(input),
            consume_buffer: Vec::new(),
            errors: Vec::new(),
            entities,
        }
    }

    /// Append one character to the consume buffer.
    pub fn consume(&mut self, c: char)
        ensures
            final(self).consume_buffer@ == old(self).consume_buffer@.push(c),
            final(self).stream == old(self).stream,
            final(self).errors == old(self).errors,
            final(self).entities == old(self).entities,
    {
        self.consume_buffer.push(c);
    }

    /// The current length of the consume buffer, taken as a watermark
    /// before speculative appends.
    pub fn get_consume_len(&self) -> (n: usize)
        ensures
            n == self.consume_buffer@.len(),
    {
        self.consume_buffer.len()
    }

    /// Discard everything appended past a previously observed length; the
    /// buffer is never extended by this.
    pub fn set_consume_len(&mut self, len: usize)
        requires
            len <= old(self).consume_buffer@.len(),
        ensures
            final(self).consume_buffer@ == old(self).consume_buffer@.take(len as int),
            final(self).stream == old(self).stream,
            final(self).errors == old(self).errors,
            final(self).entities == old(self).entities,
    {
        self.consume_buffer.truncate(len);
        proof {
            assert(self.consume_buffer@ =~= old(self).consume_buffer@.take(len as int));
        }
    }

    /// Reset the consume buffer to empty; the hard abort used when the
    /// input ends right after the ampersand, and when the supplied
    /// terminator suppresses the reference.
    pub fn clear_consume_buffer(&mut self)
        ensures
            final(self).consume_buffer@ == Seq::<char>::empty(),
            final(self).stream == old(self).stream,
            final(self).errors == old(self).errors,
            final(self).entities == old(self).entities,
    {
        self.consume_buffer.clear();
    }

    /// Record a non-fatal diagnostic.
    pub fn parse_error(&mut self, kind: ParseErrorKind)
        ensures
            final(self).errors@ == old(self).errors@.push(kind),
            final(self).stream == old(self).stream,
            final(self).consume_buffer == old(self).consume_buffer,
            final(self).entities == old(self).entities,
    {
        self.errors.push(kind);
    }
}

} // verus!
