//! A character source as a plain value.
//!
//! The machine never performs input itself: a host reads lines from a file
//! or a console, hands the characters to [`StreamReader::feed`], and marks
//! the end of the source with [`StreamReader::close`].  The reader is a
//! growable buffer with a cursor, so its whole behaviour is visible to the
//! verifier.

use vstd::prelude::*;

verus! {

/// One character source: the characters obtained from the outside so far,
/// a cursor into them, and a flag that the source has ended.
pub struct StreamReader {
    pub buff: Vec<char>,
    pub offset: usize,
    pub eos: bool,
}

impl StreamReader {
    /// The cursor never runs past the buffer.
    pub open spec fn wf(self) -> bool {
        self.offset <= self.buff@.len()
    }

    /// The characters not yet consumed.
    pub open spec fn rem(self) -> Seq<char> {
        self.buff@.skip(self.offset as int)
    }

    /// Two readers agree as values.
    pub open spec fn model_eq(a: StreamReader, b: StreamReader) -> bool {
        &&& a.buff@ == b.buff@
        &&& a.offset == b.offset
        &&& a.eos == b.eos
    }

    pub fn new() -> (r: StreamReader)
        ensures
            r.wf(),
            r.buff@.len() == 0,
            r.offset == 0,
            !r.eos,
    {
        StreamReader { buff: Vec::new(), offset: 0, eos: false }
    }

    /// Append freshly read characters to the buffer.
    pub fn feed(&mut self, line: &Vec<char>)
        requires
            old(self).wf(),
        ensures
            final(self).wf(),
            final(self).buff@ == old(self).buff@ + line@,
            final(self).offset == old(self).offset,
            final(self).eos == old(self).eos,
    {
        self.buff.extend_from_slice(line.as_slice());
    }

    /// Mark the end of the source: no more characters will ever come.
    pub fn close(&mut self)
        requires
            old(self).wf(),
        ensures
            final(self).wf(),
            final(self).buff@ == old(self).buff@,
            final(self).offset == old(self).offset,
            final(self).eos,
    {
        self.eos = true;
    }

    pub fn is_eos(&self) -> (r: bool)
        ensures
            r == self.eos,
    {
        self.eos
    }

    /// Consume one buffered character, if any is buffered.
    pub fn read_char(&mut self) -> (r: Option<char>)
        requires
            old(self).wf(),
        ensures
            final(self).wf(),
            final(self).buff@ == old(self).buff@,
            final(self).eos == old(self).eos,
            old(self).rem().len() > 0 ==> r == Some(old(self).rem()[0])
                && final(self).offset == old(self).offset + 1,
            old(self).rem().len() == 0 ==> r is None
                && final(self).offset == old(self).offset,
    {
        if self.offset < self.buff.len() {
            let c = self.buff[self.offset];
            self.offset = self.offset + 1;
            Some(c)
        } else {
            None
        }
    }

    /// Look at the next buffered character without consuming it.
    pub fn peek_char(&self) -> (r: Option<char>)
        requires
            self.wf(),
        ensures
            self.rem().len() > 0 ==> r == Some(self.rem()[0]),
            self.rem().len() == 0 ==> r is None,
    {
        if self.offset < self.buff.len() {
            Some(self.buff[self.offset])
        } else {
            None
        }
    }
}

} // verus!
