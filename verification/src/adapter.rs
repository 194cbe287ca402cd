//! Frame-to-stream adapter: byte-stream semantics over a discrete,
//! frame-oriented transport.
//!
//! The transport delivers whole frames; callers want to read arbitrary
//! amounts of bytes.  The adapter serves reads from the leftover buffer
//! first; only when that is empty does it consume the next frame, delivering
//! up to the requested capacity and stashing any remainder.  Writes package
//! the whole buffer as a single binary frame, so no partial frame is ever
//! sent.  The surrounding binary performs the actual awaiting and hands each
//! transport event to [`StreamAdapter::read_frame`].
//!
//! The module also states the stream laws: however the byte stream was split
//! into frames, and however the reader splits its requests, the bytes come
//! out exactly once and in order; after a clean close, reads keep returning
//! zero bytes.

use vstd::prelude::*;
use crate::errors::ClientError;
use crate::frame_buffer::{FrameBuffer, min_len};
use vstd::slice::{slice_subrange, slice_to_vec};

verus! {

/// One discrete message unit from the framed transport: a binary payload, or
/// any other kind (text or control), which carries no stream bytes.
pub enum Frame {
    Binary(Vec<u8>),
    Other,
}

/// What one await of the transport's receive side produced.
pub enum RecvEvent {
    /// A frame arrived.
    Frame(Frame),
    /// The connection closed cleanly; no further frames will come.
    Closed,
    /// The transport reported a receive error.
    Failed,
}

/// The adapter's answer to one read request.
pub enum ReadOutcome {
    /// Stream bytes, in order; possibly fewer than requested.
    Data(Vec<u8>),
    /// Clean end of stream: zero bytes, no error.
    Eof,
    /// A non-binary frame arrived while nothing was buffered; the caller
    /// must await the next frame and retry.
    NotReady,
    /// A transport receive error; surfaced as a read failure.
    Failed,
}

/// Split `bytes` at a read request of capacity `n`: what is delivered now
/// and what remains.
pub open spec fn split_bytes(bytes: Seq<u8>, n: nat) -> (Seq<u8>, Seq<u8>) {
    (
        bytes.take(min_len(n, bytes.len()) as int),
        bytes.skip(min_len(n, bytes.len()) as int),
    )
}

/// Byte-stream endpoint over one framed connection.  Owns the leftover
/// buffer; abstracts to the bytes received but not yet read out.
pub struct StreamAdapter {
    buffer: FrameBuffer,
}

impl View for StreamAdapter {
    type V = Seq<u8>;

    closed spec fn view(&self) -> Seq<u8> {
        self.buffer@
    }
}

impl StreamAdapter {
    pub closed spec fn inv(&self) -> bool {
        self.buffer.inv()
    }

    /// A fresh adapter with nothing buffered.
    pub fn new() -> (r: StreamAdapter)
        ensures
            r.inv(),
            r@ == Seq::<u8>::empty(),
    {
        StreamAdapter { buffer: FrameBuffer::new() }
    }

    /// Whether a read can be served without fetching a frame.
    pub fn has_buffered(&self) -> (r: bool)
        requires
            self.inv(),
        ensures
            r == (self@.len() > 0),
    {
        !self.buffer.is_empty()
    }

    /// Serve a read of capacity `n` from the leftover buffer alone.  Returns
    /// `None` exactly when nothing is buffered, in which case the caller
    /// must await the next transport event and call [`Self::read_frame`].
    /// No frame is fetched here.
    pub fn read_buffered(&mut self, n: usize) -> (r: Option<Vec<u8>>)
        requires
            old(self).inv(),
        ensures
            final(self).inv(),
            old(self)@.len() == 0 ==> r is None && final(self)@ == old(self)@,
            old(self)@.len() > 0 ==> (r matches Some(d)
                && d@ == split_bytes(old(self)@, n as nat).0
                && final(self)@ == split_bytes(old(self)@, n as nat).1),
    {
        if self.buffer.is_empty() {
            None
        } else {
            Some(self.buffer.take(n))
        }
    }

    /// Turn one transport event into the answer to a read of capacity `n`.
    /// Only legal while nothing is buffered: buffered bytes are always
    /// drained before the next frame is consumed.
    ///
    /// A clean close yields `Eof` and leaves the adapter empty, so every
    /// later read yields `Eof` again.  A binary frame is delivered up to
    /// capacity; the remainder, if any, is stashed for later reads.  A
    /// non-binary frame carries no stream bytes.
    pub fn read_frame(&mut self, n: usize, event: RecvEvent) -> (r: ReadOutcome)
        requires
            old(self).inv(),
            old(self)@.len() == 0,
        ensures
            final(self).inv(),
            match event {
                RecvEvent::Closed => r is Eof && final(self)@ == Seq::<u8>::empty(),
                RecvEvent::Failed => r is Failed && final(self)@ == Seq::<u8>::empty(),
                RecvEvent::Frame(f) => match f {
                    Frame::Other => r is NotReady && final(self)@ == Seq::<u8>::empty(),
                    Frame::Binary(p) => (r matches ReadOutcome::Data(d)
                        && d@ == split_bytes(p@, n as nat).0
                        && final(self)@ == split_bytes(p@, n as nat).1),
                },
            },
    {
        match event {
            RecvEvent::Closed => ReadOutcome::Eof,
            RecvEvent::Failed => ReadOutcome::Failed,
            RecvEvent::Frame(Frame::Other) => ReadOutcome::NotReady,
            RecvEvent::Frame(Frame::Binary(p)) => {
                if p.len() <= n {
                    proof {
                        assert(split_bytes(p@, n as nat).0 =~= p@);
                        assert(split_bytes(p@, n as nat).1 =~= Seq::<u8>::empty());
                    }
                    ReadOutcome::Data(p)
                } else {
                    let head = slice_to_vec(slice_subrange(p.as_slice(), 0, n));
                    self.buffer.stash_tail(&p, n);
                    proof {
                        assert(head@ =~= split_bytes(p@, n as nat).0);
                        assert(self@ =~= split_bytes(p@, n as nat).1);
                    }
                    ReadOutcome::Data(head)
                }
            },
        }
    }

    /// Package one write as a single binary frame carrying the whole buffer:
    /// either the entire buffer is submitted as one frame, or nothing is.
    /// On a successful submit the caller reports the full length written.
    pub fn package_write(data: Vec<u8>) -> (f: Frame)
        ensures
            f matches Frame::Binary(p) && p@ == data@,
    {
        Frame::Binary(data)
    }
}

impl ReadOutcome {
    /// The taxonomy entry a read outcome surfaces: a failed read is a
    /// frame-transport failure, surfaced without retry; every other
    /// outcome carries no error.
    pub fn failure(&self) -> (r: Option<ClientError>)
        ensures
            r is Some <==> self is Failed,
            (r matches Some(e) ==> e == ClientError::Frame),
    {
        match self {
            ReadOutcome::Failed => Some(ClientError::Frame),
            _ => None,
        }
    }
}

/// All the stream bytes carried by a sequence of binary-frame payloads, in
/// arrival order.
pub open spec fn concat_payloads(frames: Seq<Seq<u8>>) -> Seq<u8>
    decreases frames.len(),
{
    if frames.len() == 0 {
        Seq::empty()
    } else {
        frames.first() + concat_payloads(frames.drop_first())
    }
}

/// One adapter read of capacity `n` against the mock source `(buf, frames)`:
/// buffered bytes first; else the next frame, splitting its payload; else a
/// clean-EOF read of zero bytes.  Returns (delivered, buffer after, frames
/// left).
pub open spec fn model_read(buf: Seq<u8>, frames: Seq<Seq<u8>>, n: nat) -> (Seq<u8>, Seq<u8>, Seq<
    Seq<u8>,
>) {
    if buf.len() > 0 {
        (split_bytes(buf, n).0, split_bytes(buf, n).1, frames)
    } else if frames.len() > 0 {
        (split_bytes(frames.first(), n).0, split_bytes(frames.first(), n).1, frames.drop_first())
    } else {
        (Seq::empty(), buf, frames)
    }
}

/// Run the adapter over a whole list of read requests, collecting every
/// delivered byte in order.
pub open spec fn model_run(buf: Seq<u8>, frames: Seq<Seq<u8>>, reqs: Seq<nat>) -> (Seq<u8>, Seq<
    u8,
>, Seq<Seq<u8>>)
    decreases reqs.len(),
{
    if reqs.len() == 0 {
        (Seq::empty(), buf, frames)
    } else {
        let step = model_read(buf, frames, reqs.first());
        let rest = model_run(step.1, step.2, reqs.drop_first());
        (step.0 + rest.0, rest.1, rest.2)
    }
}

/// One read step conserves the stream: what it delivers, followed by what
/// stays buffered and what is still in frames, is exactly what was there
/// before, in order.
pub proof fn lemma_read_step_preserves_stream(buf: Seq<u8>, frames: Seq<Seq<u8>>, n: nat)
    ensures
        ({
            let step = model_read(buf, frames, n);
            step.0 + step.1 + concat_payloads(step.2) == buf + concat_payloads(frames)
        }),
{
    let step = model_read(buf, frames, n);
    if buf.len() > 0 {
        assert(step.0 + step.1 =~= buf);
        assert(step.0 + step.1 + concat_payloads(step.2) =~= buf + concat_payloads(frames));
    } else if frames.len() > 0 {
        assert(step.0 + step.1 =~= frames.first());
        assert(buf + concat_payloads(frames) =~= frames.first() + concat_payloads(
            frames.drop_first(),
        ));
        assert(step.0 + step.1 + concat_payloads(step.2) =~= (step.0 + step.1) + concat_payloads(
            frames.drop_first(),
        ));
    } else {
        assert(step.0 + step.1 + concat_payloads(step.2) =~= buf + concat_payloads(frames));
    }
}

/// A whole run of reads conserves the stream.
pub proof fn lemma_read_run_preserves_stream(buf: Seq<u8>, frames: Seq<Seq<u8>>, reqs: Seq<nat>)
    ensures
        ({
            let run = model_run(buf, frames, reqs);
            run.0 + run.1 + concat_payloads(run.2) == buf + concat_payloads(frames)
        }),
    decreases reqs.len(),
{
    if reqs.len() == 0 {
        let run = model_run(buf, frames, reqs);
        assert(run.0 + run.1 + concat_payloads(run.2) =~= buf + concat_payloads(frames));
    } else {
        let step = model_read(buf, frames, reqs.first());
        let rest = model_run(step.1, step.2, reqs.drop_first());
        lemma_read_step_preserves_stream(buf, frames, reqs.first());
        lemma_read_run_preserves_stream(step.1, step.2, reqs.drop_first());
        assert((step.0 + rest.0) + rest.1 + concat_payloads(rest.2) =~= step.0 + (rest.0 + rest.1
            + concat_payloads(rest.2)));
        assert(step.0 + (rest.0 + rest.1 + concat_payloads(rest.2)) =~= step.0 + (step.1
            + concat_payloads(step.2)));
        assert(step.0 + (step.1 + concat_payloads(step.2)) =~= (step.0 + step.1) + concat_payloads(
            step.2,
        ));
    }
}

/// However a byte sequence was split across binary frames, and in whatever
/// chunk sizes it is read back, a run that drains everything reproduces
/// exactly those bytes, in order.
pub proof fn lemma_reads_reproduce_stream(frames: Seq<Seq<u8>>, reqs: Seq<nat>)
    requires
        model_run(Seq::empty(), frames, reqs).1.len() == 0,
        model_run(Seq::empty(), frames, reqs).2.len() == 0,
    ensures
        model_run(Seq::empty(), frames, reqs).0 == concat_payloads(frames),
{
    let run = model_run(Seq::empty(), frames, reqs);
    lemma_read_run_preserves_stream(Seq::empty(), frames, reqs);
    assert(concat_payloads(run.2) =~= Seq::<u8>::empty());
    assert(run.0 =~= run.0 + run.1 + concat_payloads(run.2));
    assert(Seq::<u8>::empty() + concat_payloads(frames) =~= concat_payloads(frames));
}

/// After clean closure with no further frames and nothing buffered, every
/// read — however many are made — delivers zero bytes and leaves the adapter
/// in the same state: end of stream is idempotent.
pub proof fn lemma_eof_idempotent(reqs: Seq<nat>)
    ensures
        model_run(Seq::empty(), Seq::empty(), reqs).0 == Seq::<u8>::empty(),
        model_run(Seq::empty(), Seq::empty(), reqs).1 == Seq::<u8>::empty(),
        model_run(Seq::empty(), Seq::empty(), reqs).2 == Seq::<Seq<u8>>::empty(),
    decreases reqs.len(),
{
    if reqs.len() == 0 {
    } else {
        lemma_eof_idempotent(reqs.drop_first());
        let run = model_run(Seq::empty(), Seq::empty(), reqs);
        assert(run.0 =~= Seq::<u8>::empty());
    }
}

/// Concatenating the frames a transport observes from a sequence of writes
/// reproduces exactly the written bytes, in order: each write becomes one
/// binary frame carrying precisely its buffer.
pub proof fn lemma_writes_reproduce_stream(writes: Seq<Seq<u8>>, payloads: Seq<Seq<u8>>)
    requires
        payloads.len() == writes.len(),
        forall|i: int| 0 <= i < writes.len() ==> payloads[i] == writes[i],
    ensures
        concat_payloads(payloads) == concat_payloads(writes),
{
    assert(payloads =~= writes);
}

} // verus!
