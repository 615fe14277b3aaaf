use vstd::prelude::*;

verus! {

/// A cursor over an immutable byte buffer.
///
/// The cursor never moves past the end of the buffer; reading at or past the
/// end is ruled out by the preconditions of the reading methods.
pub struct Scanner<'a> {
    /// Buffer of bytes to iterate over.
    buffer: &'a [u8],
    /// Current index into the buffer, advanced by `consume`.
    index: usize,
}

impl<'a> Scanner<'a> {
    /// The bytes being scanned.
    pub closed spec fn bytes(&self) -> Seq<u8> {
        self.buffer@
    }

    /// The cursor position.
    pub closed spec fn cursor(&self) -> int {
        self.index as int
    }

    /// The cursor never passes the end of the buffer.
    pub open spec fn wf(&self) -> bool {
        0 <= self.cursor() <= self.bytes().len() <= usize::MAX
    }

    /// Whether scanning has ended at position `i` of `s`: the end of the
    /// buffer, or a zero byte, which acts as a terminator.
    pub open spec fn spec_eof_at(s: Seq<u8>, i: int) -> bool {
        i >= s.len() || s[i] == 0
    }

    /// Wrap `input` with the cursor at its first byte.
    pub fn new(input: &'a [u8]) -> (r: Scanner<'a>)
        ensures
            r.wf(),
            r.bytes() == input@,
            r.cursor() == 0,
    {
        proof {
            assert(input.len() == input@.len());
        }
        Scanner { buffer: input, index: 0 }
    }

    /// The cursor position.
    pub fn cursor_index(&self) -> (r: usize)
        ensures
            r == self.cursor(),
    {
        self.index
    }

    /// Wrap `input` with the cursor at position `index`.
    pub fn starting_at(input: &'a [u8], index: usize) -> (r: Scanner<'a>)
        requires
            index <= input@.len(),
        ensures
            r.wf(),
            r.bytes() == input@,
            r.cursor() == index,
    {
        proof {
            assert(input.len() == input@.len());
        }
        Scanner { buffer: input, index }
    }

    /// Read the byte under the cursor and advance the cursor by one.
    pub fn consume(&mut self) -> (r: u8)
        requires
            old(self).wf(),
            old(self).cursor() < old(self).bytes().len(),
        ensures
            final(self).wf(),
            final(self).bytes() == old(self).bytes(),
            final(self).cursor() == old(self).cursor() + 1,
            r == old(self).bytes()[old(self).cursor()],
    {
        self.index = self.index + 1;
        self.buffer[self.index - 1]
    }

    /// Read the byte `index` places past the cursor without moving it.
    pub fn look_ahead(&mut self, index: usize) -> (r: u8)
        requires
            old(self).wf(),
            old(self).cursor() + index < old(self).bytes().len(),
        ensures
            *final(self) == *old(self),
            r == old(self).bytes()[old(self).cursor() + index],
    {
        self.buffer[self.index + index]
    }

    /// Read the byte under the cursor without moving it.
    pub fn peek(&mut self) -> (r: u8)
        requires
            old(self).wf(),
            old(self).cursor() < old(self).bytes().len(),
        ensures
            *final(self) == *old(self),
            r == old(self).bytes()[old(self).cursor()],
    {
        self.look_ahead(0)
    }

    /// Whether scanning has ended: the cursor is at the end of the buffer, or
    /// the byte under it is zero.
    pub fn is_eof(&mut self) -> (r: bool)
        requires
            old(self).wf(),
        ensures
            *final(self) == *old(self),
            r == Self::spec_eof_at(old(self).bytes(), old(self).cursor()),
    {
        self.index >= self.buffer.len() || self.peek() == 0
    }
}

/// In a buffer without zero bytes, scanning ends exactly when the cursor has
/// reached the end: after as many `consume` calls as the buffer has bytes.
pub proof fn lemma_eof_exactly_at_end(scanner: Scanner)
    requires
        scanner.wf(),
        forall|k: int| 0 <= k < scanner.bytes().len() ==> scanner.bytes()[k] != 0,
    ensures
        Scanner::spec_eof_at(scanner.bytes(), scanner.cursor()) <==> scanner.cursor()
            == scanner.bytes().len(),
{
}

} // verus!
