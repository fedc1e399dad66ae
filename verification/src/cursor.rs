//! A read position over a borrowed byte slice.
use vstd::prelude::*;

verus! {

/// Read position over a borrowed byte slice; the position may lie past the end.
pub struct Cursor<'a> {
    data: &'a [u8],
    pos: u64,
}

impl<'a> Cursor<'a> {
    /// The bytes the cursor reads from.
    pub closed spec fn bytes(&self) -> Seq<u8> {
        self.data@
    }

    /// The read position.
    pub closed spec fn pos(&self) -> int {
        self.pos as int
    }

    /// The bytes from the read position to the end (empty when the position is past the end).
    pub open spec fn rest(&self) -> Seq<u8> {
        if self.pos() <= self.bytes().len() {
            self.bytes().skip(self.pos())
        } else {
            Seq::empty()
        }
    }

    /// A cursor at position 0.
    pub fn new(data: &'a [u8]) -> (c: Self)
        ensures
            c.bytes() == data@,
            c.pos() == 0,
    {
        Cursor { data, pos: 0 }
    }

    /// The read position.
    pub fn position(&self) -> (p: u64)
        ensures
            p == self.pos(),
    {
        self.pos
    }

    /// Moves the read position.
    pub fn set_position(&mut self, pos: u64)
        ensures
            final(self).bytes() == old(self).bytes(),
            final(self).pos() == pos,
    {
        self.pos = pos;
    }

    /// Number of bytes from the read position to the end.
    pub fn remaining(&self) -> (r: usize)
        ensures
            r == self.rest().len(),
    {
        let n = self.data.len();
        if self.pos <= n as u64 {
            n - self.pos as usize
        } else {
            0
        }
    }

    /// The underlying slice.
    pub fn get_ref(&self) -> (d: &'a [u8])
        ensures
            d@ == self.bytes(),
    {
        self.data
    }
}

} // verus!
