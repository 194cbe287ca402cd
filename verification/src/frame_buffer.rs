//! Leftover-byte buffering for the frame-to-stream adapter.
//!
//! When a frame arrives whose payload is larger than the read call that
//! triggered it, the unread remainder is stashed here until later reads drain
//! it.  The buffer holds at most one frame's unread remainder at any time, is
//! cleared exactly when fully drained, and never reorders bytes.

use vstd::prelude::*;

verus! {

/// The unread remainder of one oversized frame, with an explicit read cursor.
pub struct FrameBuffer {
    data: Vec<u8>,
    rpos: usize,
}

impl View for FrameBuffer {
    type V = Seq<u8>;

    /// A `FrameBuffer` abstracts to the sequence of bytes not yet read out.
    closed spec fn view(&self) -> Seq<u8> {
        self.data@.skip(self.rpos as int)
    }
}

impl FrameBuffer {
    /// The cursor stays within the stored bytes, and storage is dropped as
    /// soon as it is drained: either some bytes remain unread, or the buffer
    /// is entirely empty.
    pub closed spec fn inv(&self) -> bool {
        &&& self.rpos <= self.data@.len()
        &&& (self.rpos < self.data@.len() || (self.rpos == 0 && self.data@.len() == 0))
    }

    /// A fresh, empty buffer.
    pub fn new() -> (r: FrameBuffer)
        ensures
            r.inv(),
            r@ == Seq::<u8>::empty(),
    {
        let r = FrameBuffer { data: Vec::new(), rpos: 0 };
        proof {
            assert(r@ =~= Seq::<u8>::empty());
        }
        r
    }

    /// Whether any unread bytes remain.
    pub fn is_empty(&self) -> (r: bool)
        requires
            self.inv(),
        ensures
            r == (self@.len() == 0),
    {
        self.rpos == self.data.len()
    }

    /// How many unread bytes remain.
    pub fn len(&self) -> (r: usize)
        requires
            self.inv(),
        ensures
            r == self@.len(),
    {
        self.data.len() - self.rpos
    }

    /// Read out up to `n` bytes: the first `min(n, remaining)` unread bytes
    /// leave the buffer, in order.  Once the last byte is taken the buffer is
    /// cleared, restoring the empty state.
    pub fn take(&mut self, n: usize) -> (r: Vec<u8>)
        requires
            old(self).inv(),
        ensures
            final(self).inv(),
            r@ == old(self)@.take(min_len(n as nat, old(self)@.len()) as int),
            final(self)@ == old(self)@.skip(min_len(n as nat, old(self)@.len()) as int),
    {
        let avail: usize = self.data.len() - self.rpos;
        let k: usize = if n <= avail { n } else { avail };
        let mut out: Vec<u8> = Vec::new();
        let mut i: usize = 0;
        while i < k
            invariant
                i <= k,
                k <= avail,
                avail == self.data@.len() - self.rpos,
                self.rpos + k <= self.data@.len(),
                self.data@.len() <= usize::MAX,
                out@ == self.data@.subrange(self.rpos as int, self.rpos + i),
            decreases k - i,
        {
            out.push(self.data[self.rpos + i]);
            i += 1;
            proof {
                assert(out@ =~= self.data@.subrange(self.rpos as int, self.rpos + i));
            }
        }
        proof {
            assert(out@ =~= self@.take(k as int));
        }
        self.rpos = self.rpos + k;
        if self.rpos == self.data.len() {
            self.data = Vec::new();
            self.rpos = 0;
        }
        proof {
            assert(self@ =~= old(self)@.skip(min_len(n as nat, old(self)@.len()) as int));
            assert(out@ =~= old(self)@.take(min_len(n as nat, old(self)@.len()) as int));
        }
        out
    }

    /// Stash the tail of a freshly received frame payload, starting at
    /// `from`.  Only legal while the buffer is empty: it never holds pieces
    /// of two frames at once.
    pub fn stash_tail(&mut self, payload: &Vec<u8>, from: usize)
        requires
            old(self).inv(),
            old(self)@.len() == 0,
            from < payload@.len(),
        ensures
            final(self).inv(),
            final(self)@ == payload@.skip(from as int),
    {
        let mut data: Vec<u8> = Vec::new();
        let mut i: usize = from;
        while i < payload.len()
            invariant
                from <= i <= payload@.len(),
                data@ == payload@.subrange(from as int, i as int),
            decreases payload@.len() - i,
        {
            data.push(payload[i]);
            i += 1;
            proof {
                assert(data@ =~= payload@.subrange(from as int, i as int));
            }
        }
        self.data = data;
        self.rpos = 0;
        proof {
            assert(self@ =~= payload@.skip(from as int));
        }
    }
}

/// The smaller of two lengths.
pub open spec fn min_len(a: nat, b: nat) -> nat {
    if a <= b {
        a
    } else {
        b
    }
}

} // verus!
