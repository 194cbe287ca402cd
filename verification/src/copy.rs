//! Bulk file copy accounting: a one-shot, directional, copy-until-EOF run.
//!
//! The surrounding binary opens the two file handles and performs the reads
//! and writes; this state machine decides what each read outcome means and
//! accounts for every byte.  There is no retry and no resume: the first
//! failure ends the run, the destination holds exactly the bytes written
//! before it, and the failure is always reported, never swallowed.

use vstd::prelude::*;
use crate::errors::ClientError;

verus! {

/// One read from the source.
pub enum CopyEvent {
    /// Some bytes arrived.
    Chunk(Vec<u8>),
    /// The source is exhausted.
    Eof,
    /// The source failed mid-read.
    Failed,
}

/// What the driver must do next.
pub enum CopyStep {
    /// Write these bytes to the destination, in order.
    Write(Vec<u8>),
    /// The copy is complete; report success.
    Done,
    /// The copy failed; report the failure.
    Fail,
}

/// The accounting of one copy run.
pub struct CopyProgress {
    copied: u64,
    finished: bool,
    failed: bool,
    written: Ghost<Seq<u8>>,
}

impl CopyProgress {
    /// How many bytes have been handed to the destination.
    pub closed spec fn copied(&self) -> u64 {
        self.copied
    }

    /// Whether the source reported a clean end of stream.
    pub closed spec fn finished(&self) -> bool {
        self.finished
    }

    /// Whether the run failed.
    pub closed spec fn failed(&self) -> bool {
        self.failed
    }

    /// Every byte handed to the destination so far, in order.
    pub closed spec fn written(&self) -> Seq<u8> {
        self.written@
    }

    /// The byte count always matches the bytes, and a run does not both
    /// finish and fail.
    pub closed spec fn inv(&self) -> bool {
        &&& self.copied == self.written@.len()
        &&& !(self.finished && self.failed)
    }

    /// A fresh run: nothing copied, no verdict yet.
    pub fn new() -> (r: CopyProgress)
        ensures
            r.inv(),
            r.copied() == 0,
            !r.finished(),
            !r.failed(),
            r.written() == Seq::<u8>::empty(),
    {
        CopyProgress { copied: 0, finished: false, failed: false, written: Ghost(Seq::empty()) }
    }

    /// Account for one read from the source.  A chunk is written through
    /// whole and in order; a clean end of stream completes the run with
    /// the destination holding exactly the bytes read; a failure ends the
    /// run at once, leaving the destination truncated at what was already
    /// written.
    pub fn step(&mut self, ev: CopyEvent) -> (r: CopyStep)
        requires
            old(self).inv(),
            !old(self).finished(),
            !old(self).failed(),
            (ev matches CopyEvent::Chunk(d) ==> old(self).copied() + d@.len() <= u64::MAX),
        ensures
            final(self).inv(),
            match ev {
                CopyEvent::Chunk(d) => (r matches CopyStep::Write(w) && w@ == d@
                    && final(self).written() == old(self).written() + d@ && final(self).copied()
                    == old(self).copied() + d@.len() && !final(self).finished()
                    && !final(self).failed()),
                CopyEvent::Eof => r is Done && final(self).finished() && !final(self).failed()
                    && final(self).written() == old(self).written(),
                CopyEvent::Failed => r is Fail && final(self).failed() && !final(self).finished()
                    && final(self).written() == old(self).written(),
            },
    {
        match ev {
            CopyEvent::Chunk(d) => {
                proof {
                    self.written@ = self.written@ + d@;
                }
                self.copied = self.copied + d.len() as u64;
                CopyStep::Write(d)
            },
            CopyEvent::Eof => {
                self.finished = true;
                CopyStep::Done
            },
            CopyEvent::Failed => {
                self.failed = true;
                CopyStep::Fail
            },
        }
    }

    /// How many bytes have been handed to the destination so far.
    pub fn total(&self) -> (r: u64)
        ensures
            r == self.copied(),
    {
        self.copied
    }

    /// The run's verdict, once the source has said its last word: a
    /// failure is always reported, never swallowed; success reports the
    /// full byte count.
    pub fn result(&self) -> (r: Result<u64, ClientError>)
        requires
            self.finished() || self.failed(),
        ensures
            self.failed() ==> r == Err::<u64, ClientError>(ClientError::LocalIo),
            !self.failed() ==> r == Ok::<u64, ClientError>(self.copied()),
    {
        if self.failed {
            Err(ClientError::LocalIo)
        } else {
            Ok(self.copied)
        }
    }
}

} // verus!
