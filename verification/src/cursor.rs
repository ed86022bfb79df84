//! A position-tracking read view over a byte buffer.
//!
//! The transport isolates a frame body and hands the decoders a cursor
//! positioned at its start; every read advances the position by exactly
//! the bytes it consumed, and a read past the end is a typed failure.

use crate::error::DecodeError;
use vstd::prelude::*;
use vstd::slice::{slice_subrange, slice_to_vec};

verus! {

/// Sequential reader over a borrowed byte buffer.
pub struct Cursor<'a> {
    bytes: &'a [u8],
    pos: usize,
}

impl<'a> Cursor<'a> {
    /// The cursor position never passes the end of the buffer.
    pub closed spec fn wf(&self) -> bool {
        self.pos <= self.bytes@.len()
    }

    /// The bytes that have not been consumed yet.
    pub closed spec fn remaining(&self) -> Seq<u8> {
        self.bytes@.skip(self.pos as int)
    }

    /// Starts a cursor at the beginning of a buffer.
    pub fn new(bytes: &'a [u8]) -> (r: Cursor<'a>)
        ensures
            r.wf(),
            r.remaining() == bytes@,
    {
        let r = Cursor { bytes, pos: 0 };
        proof {
            assert(r.remaining() =~= bytes@);
        }
        r
    }

    /// How many bytes are left to read.
    pub fn remaining_len(&self) -> (r: usize)
        requires
            self.wf(),
        ensures
            r == self.remaining().len(),
    {
        self.bytes.len() - self.pos
    }

    /// Reads one byte and advances past it.
    pub fn read_u8(&mut self) -> (r: Result<u8, DecodeError>)
        requires
            old(self).wf(),
        ensures
            final(self).wf(),
            old(self).remaining().len() >= 1 ==> r is Ok && r->Ok_0 == old(self).remaining()[0]
                && final(self).remaining() == old(self).remaining().skip(1),
            old(self).remaining().len() == 0 ==> r == Err::<u8, DecodeError>(
                DecodeError::UnexpectedEndOfBuffer,
            ) && *final(self) == *old(self),
    {
        if self.pos < self.bytes.len() {
            let b = self.bytes[self.pos];
            self.pos = self.pos + 1;
            proof {
                assert(final(self).remaining() =~= old(self).remaining().skip(1));
            }
            Ok(b)
        } else {
            Err(DecodeError::UnexpectedEndOfBuffer)
        }
    }

    /// Reads exactly `n` bytes, as an owned buffer, and advances past them.
    pub fn read_bytes(&mut self, n: usize) -> (r: Result<Vec<u8>, DecodeError>)
        requires
            old(self).wf(),
        ensures
            final(self).wf(),
            old(self).remaining().len() >= n ==> r is Ok && r->Ok_0@ == old(
                self,
            ).remaining().take(n as int) && final(self).remaining() == old(self).remaining().skip(
                n as int,
            ),
            old(self).remaining().len() < n ==> r == Err::<Vec<u8>, DecodeError>(
                DecodeError::UnexpectedEndOfBuffer,
            ) && *final(self) == *old(self),
    {
        if n <= self.bytes.len() - self.pos {
            let taken = slice_subrange(self.bytes, self.pos, self.pos + n);
            let v = slice_to_vec(taken);
            self.pos = self.pos + n;
            proof {
                assert(v@ =~= old(self).remaining().take(n as int));
                assert(final(self).remaining() =~= old(self).remaining().skip(n as int));
            }
            Ok(v)
        } else {
            Err(DecodeError::UnexpectedEndOfBuffer)
        }
    }
}

} // verus!
