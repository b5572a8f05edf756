//! An owned forward-biased cursor over an in-memory byte source.
//!
//! The cursor models one independently-positioned view of the capture data:
//! it holds its own copy of the bytes and a position. Like a file handle, the
//! position may be placed past the end of the data; reads, not seeks, fail
//! when bytes are missing.

use vstd::prelude::*;

use crate::error::PadError;

verus! {

/// The mathematical state of a cursor: the bytes it ranges over and its
/// current position.
pub struct CursorView {
    pub data: Seq<u8>,
    pub pos: int,
}

/// The bytes from the cursor's position to the end of its data; empty when
/// the cursor sits past the end.
pub open spec fn remaining(c: CursorView) -> Seq<u8> {
    if 0 <= c.pos <= c.data.len() {
        c.data.subrange(c.pos, c.data.len() as int)
    } else {
        Seq::empty()
    }
}

/// One sequential view of the capture data, with exclusive ownership of its
/// position.
pub struct ByteCursor {
    data: Vec<u8>,
    pos: u64,
}

impl View for ByteCursor {
    type V = CursorView;

    closed spec fn view(&self) -> CursorView {
        CursorView { data: self.data@, pos: self.pos as int }
    }
}

impl ByteCursor {
    /// The position is a file offset and the data sits in memory: both stay
    /// within their machine ranges.
    pub proof fn lemma_view_bounds(&self)
        ensures
            0 <= self@.pos <= u64::MAX,
            self@.data.len() <= usize::MAX,
    {
        vstd::std_specs::vec::axiom_spec_len(&self.data);
    }

    /// A cursor over the given bytes, positioned at the start.
    pub fn new(data: Vec<u8>) -> (r: ByteCursor)
        ensures
            r@.data == data@,
            r@.pos == 0,
    {
        ByteCursor { data, pos: 0 }
    }

    /// Moves the cursor to an absolute position. Positions past the end of
    /// the data are allowed, as they are for a file; a later read fails.
    pub fn seek_to(&mut self, off: u64)
        ensures
            final(self)@.data == old(self)@.data,
            final(self)@.pos == off as int,
    {
        self.pos = off;
    }

    /// Moves the cursor by a signed amount relative to its position.
    /// Fails, leaving the cursor unmoved, exactly when the target position
    /// would fall outside the representable range.
    pub fn seek_relative(&mut self, delta: i64) -> (r: Result<(), PadError>)
        ensures
            final(self)@.data == old(self)@.data,
            r is Ok <==> 0 <= old(self)@.pos + delta <= u64::MAX,
            r is Ok ==> final(self)@.pos == old(self)@.pos + delta,
            r is Err ==> final(self)@.pos == old(self)@.pos && r == Err::<(), PadError>(
                PadError::SeekOutOfRange,
            ),
    {
        if delta >= 0 {
            let d: u64 = delta as u64;
            if d <= u64::MAX - self.pos {
                self.pos = self.pos + d;
                Ok(())
            } else {
                Err(PadError::SeekOutOfRange)
            }
        } else {
            let mag: u64 = if delta == i64::MIN {
                0x8000_0000_0000_0000u64
            } else {
                (-delta) as u64
            };
            assert(mag == -(delta as int));
            if mag <= self.pos {
                self.pos = self.pos - mag;
                Ok(())
            } else {
                Err(PadError::SeekOutOfRange)
            }
        }
    }

    /// Reads exactly `n` bytes at the current position, advancing past them.
    /// Fails, leaving the cursor unmoved, exactly when fewer than `n` bytes
    /// remain; reading zero bytes always succeeds.
    pub fn read_vec(&mut self, n: usize) -> (r: Result<Vec<u8>, PadError>)
        ensures
            final(self)@.data == old(self)@.data,
            r is Ok <==> (n == 0 || old(self)@.pos + n <= old(self)@.data.len()),
            r matches Ok(v) ==> {
                &&& final(self)@.pos == old(self)@.pos + n
                &&& v@ == (if n == 0 {
                    Seq::<u8>::empty()
                } else {
                    old(self)@.data.subrange(old(self)@.pos, old(self)@.pos + n)
                })
            },
            r is Err ==> final(self)@.pos == old(self)@.pos && r == Err::<Vec<u8>, PadError>(
                PadError::ShortRead,
            ),
    {
        if n == 0 {
            return Ok(Vec::new());
        }
        if self.pos > self.data.len() as u64 {
            return Err(PadError::ShortRead);
        }
        let p: usize = self.pos as usize;
        if n > self.data.len() - p {
            return Err(PadError::ShortRead);
        }
        let mut out: Vec<u8> = Vec::new();
        let mut i: usize = 0;
        while i < n
            invariant
                p + n <= self.data.len(),
                i <= n,
                out@ == self.data@.subrange(p as int, p + i),
            decreases n - i,
        {
            out.push(self.data[p + i]);
            i = i + 1;
            assert(out@ =~= self.data@.subrange(p as int, p + i));
        }
        self.pos = self.pos + n as u64;
        Ok(out)
    }
}

/// An independent copy of a byte buffer, so that a second cursor can range
/// over the same data without sharing position state.
pub fn copy_bytes(v: &Vec<u8>) -> (r: Vec<u8>)
    ensures
        r@ == v@,
{
    let mut out: Vec<u8> = Vec::new();
    let mut i: usize = 0;
    while i < v.len()
        invariant
            i <= v@.len(),
            out@ == v@.subrange(0, i as int),
        decreases v@.len() - i,
    {
        out.push(v[i]);
        i = i + 1;
        assert(out@ =~= v@.subrange(0, i as int));
    }
    assert(out@ =~= v@);
    out
}

} // verus!
