//! An exclusively owned cursor over an immutable byte buffer: a read
//! position that advances monotonically and never reads out of bounds.

use vstd::prelude::*;

use crate::error::DecodeError;

verus! {

/// A byte-slice reader: the buffer plus a cursor position. Every read
/// past the end fails with `DecodeError::UnexpectedEof` instead of
/// wrapping or reading out of bounds.
pub struct SharedByteSliceReader {
    buf: Vec<u8>,
    pos: usize,
}

impl SharedByteSliceReader {
    /// The whole underlying buffer.
    pub closed spec fn bytes(self) -> Seq<u8> {
        self.buf@
    }

    /// The cursor position.
    pub closed spec fn position(self) -> int {
        self.pos as int
    }

    /// The cursor never stands outside the buffer.
    pub open spec fn wf(self) -> bool {
        0 <= self.position() <= self.bytes().len()
    }

    /// The bytes not yet consumed.
    pub open spec fn remaining(self) -> Seq<u8> {
        self.bytes().skip(self.position())
    }

    /// A fresh reader over `inner`, positioned at its start.
    pub fn new(inner: Vec<u8>) -> (r: Self)
        ensures
            r.wf(),
            r.bytes() == inner@,
            r.position() == 0,
    {
        SharedByteSliceReader { buf: inner, pos: 0 }
    }

    /// A copy of the bytes not yet consumed.
    pub fn copy_inner(&self) -> (r: Vec<u8>)
        requires
            self.wf(),
        ensures
            r@ == self.remaining(),
    {
        let mut out: Vec<u8> = Vec::new();
        let mut i: usize = self.pos;
        while i < self.buf.len()
            invariant
                self.pos <= i <= self.buf.len(),
                out@ == self.buf@.subrange(self.pos as int, i as int),
            decreases self.buf.len() - i,
        {
            out.push(self.buf[i]);
            assert(out@ == self.buf@.subrange(self.pos as int, i + 1));
            i = i + 1;
        }
        assert(out@ == self.remaining());
        out
    }

    /// How many bytes are left to read.
    pub fn remaining_len(&self) -> (r: usize)
        requires
            self.wf(),
        ensures
            r == self.remaining().len(),
    {
        self.buf.len() - self.pos
    }

    /// Reads one byte and advances; fails on an empty remainder.
    pub fn read_u8(&mut self) -> (r: Result<u8, DecodeError>)
        requires
            old(self).wf(),
        ensures
            final(self).wf(),
            final(self).bytes() == old(self).bytes(),
            old(self).remaining().len() == 0 ==> r == Err::<u8, DecodeError>(
                DecodeError::UnexpectedEof,
            ) && final(self).position() == old(self).position(),
            old(self).remaining().len() > 0 ==> r == Ok::<u8, DecodeError>(
                old(self).remaining()[0],
            ) && final(self).position() == old(self).position() + 1,
    {
        if self.pos < self.buf.len() {
            let b = self.buf[self.pos];
            self.pos = self.pos + 1;
            Ok(b)
        } else {
            Err(DecodeError::UnexpectedEof)
        }
    }

    /// Reads exactly `n` bytes and advances; fails, without moving, when
    /// fewer are left.
    pub fn read_fixed(&mut self, n: usize) -> (r: Result<Vec<u8>, DecodeError>)
        requires
            old(self).wf(),
        ensures
            final(self).wf(),
            final(self).bytes() == old(self).bytes(),
            old(self).remaining().len() < n ==> r == Err::<Vec<u8>, DecodeError>(
                DecodeError::UnexpectedEof,
            ) && final(self).position() == old(self).position(),
            old(self).remaining().len() >= n ==> final(self).position() == old(self).position() + n
                && (r matches Ok(v) && v@ == old(self).remaining().subrange(0, n as int)),
    {
        if n <= self.buf.len() - self.pos {
            let mut out: Vec<u8> = Vec::new();
            let start: usize = self.pos;
            let mut i: usize = 0;
            while i < n
                invariant
                    start + n <= self.buf.len(),
                    0 <= i <= n,
                    out@ == self.buf@.subrange(start as int, start + i),
                decreases n - i,
            {
                out.push(self.buf[start + i]);
                assert(out@ == self.buf@.subrange(start as int, start + i + 1));
                i = i + 1;
            }
            self.pos = start + n;
            assert(out@ == old(self).remaining().subrange(0, n as int));
            Ok(out)
        } else {
            Err(DecodeError::UnexpectedEof)
        }
    }
}

} // verus!
