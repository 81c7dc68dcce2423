use vstd::prelude::*;

verus! {

/// A positioned cursor over the input text, the shape of stream the
/// tokenizer hands to the decoder: single-character read that signals the
/// end of the input, one-character lookahead, and a single-step push-back.
pub struct CharStream {
    /// The whole input text.
    pub chars: Vec<char>,
    /// How many characters have been read so far.
    pub pos: usize,
}

impl CharStream {
    /// The cursor never runs past the end of the text.
    pub open spec fn wf(self) -> bool {
        self.pos <= self.chars.len()
    }

    /// The input that has not been read yet.
    pub open spec fn remaining(self) -> Seq<char> {
        self.chars@.skip(self.pos as int)
    }

    /// A stream at the start of the given text.
    pub fn new(chars: Vec<char>) -> (s: CharStream)
        ensures
            s.wf(),
            s.chars@ == chars@,
            s.pos == 0,
    {
        CharStream { chars, pos: 0 }
    }

    /// Read one character and advance; at the end of the input nothing is
    /// consumed and `None` is returned.
    pub fn read_char(&mut self) -> (r: Option<char>)
        requires
            old(self).wf(),
        ensures
            final(self).wf(),
            final(self).chars@ == old(self).chars@,
            old(self).remaining().len() > 0 ==> {
                &&& r == Some(old(self).remaining()[0])
                &&& final(self).pos == old(self).pos + 1
            },
            old(self).remaining().len() == 0 ==> {
                &&& r is None
                &&& final(self).pos == old(self).pos
            },
    {
        if self.pos < self.chars.len() {
            let c = self.chars[self.pos];
            self.pos = self.pos + 1;
            Some(c)
        } else {
            None
        }
    }

    /// Look at the next character without consuming it.
    pub fn look_ahead(&self) -> (r: Option<char>)
        requires
            self.wf(),
        ensures
            self.remaining().len() > 0 ==> r == Some(self.remaining()[0]),
            self.remaining().len() == 0 ==> r is None,
    {
        if self.pos < self.chars.len() {
            Some(self.chars[self.pos])
        } else {
            None
        }
    }

    /// Push back exactly one character: the cursor steps back over the
    /// character read last.
    pub fn unread(&mut self)
        requires
            old(self).wf(),
            old(self).pos > 0,
        ensures
            final(self).wf(),
            final(self).chars@ == old(self).chars@,
            final(self).pos == old(self).pos - 1,
    {
        self.pos = self.pos - 1;
    }
}

} // verus!
