//! The decisions of one streaming transfer. The caller opens the destination,
//! reads the byte stream and writes the file; this module says whether to
//! stream at all, keeps the owned slot's progress, and always hands the slot
//! back when the transfer ends.

use vstd::prelude::*;
use crate::pool::{Permit, SlotPool};

verus! {

/// What opening the destination for exclusive creation gave.
#[derive(Debug)]
pub enum OpenOutcome {
    Created,
    AlreadyExists,
    Failed(String),
}

/// Why a transfer failed.
#[derive(Debug)]
pub enum TransferError {
    /// The stream did not report its length up front.
    LengthUnknown,
    /// Creating or writing the destination failed.
    Io(String),
    /// Reading the byte stream failed.
    Stream(String),
}

/// How a transfer ended.
#[derive(Debug)]
pub enum Outcome {
    Completed,
    /// The destination already existed and was left as it was.
    Skipped,
    Failed(TransferError),
}

/// How the byte stream came to its end.
#[derive(Debug)]
pub enum StreamEnd {
    Finished,
    StreamFailed(String),
    WriteFailed(String),
}

/// What to do once the destination has been opened.
#[derive(Debug)]
pub enum Start {
    /// Leave the existing file alone.
    Skip,
    /// Give up before writing a byte.
    Abort(TransferError),
    /// Stream into the new file; the argument is the reported length.
    Stream(u64),
}

pub open spec fn start_for(open: OpenOutcome, length: Option<u64>) -> Start {
    match open {
        OpenOutcome::AlreadyExists => Start::Skip,
        OpenOutcome::Failed(e) => Start::Abort(TransferError::Io(e)),
        OpenOutcome::Created => match length {
            Some(n) => Start::Stream(n),
            None => Start::Abort(TransferError::LengthUnknown),
        },
    }
}

/// The outcome of a transfer that ends before streaming.
pub open spec fn early_outcome(start: Start) -> Outcome {
    match start {
        Start::Abort(e) => Outcome::Failed(e),
        _ => Outcome::Skipped,
    }
}

pub open spec fn end_outcome(end: StreamEnd) -> Outcome {
    match end {
        StreamEnd::Finished => Outcome::Completed,
        StreamEnd::StreamFailed(e) => Outcome::Failed(TransferError::Stream(e)),
        StreamEnd::WriteFailed(e) => Outcome::Failed(TransferError::Io(e)),
    }
}

/// Total of the chunk sizes.
pub open spec fn sum_of(chunks: Seq<u64>) -> nat
    decreases chunks.len(),
{
    if chunks.len() == 0 {
        0
    } else {
        sum_of(chunks.drop_last()) + chunks.last() as nat
    }
}

/// An existing destination is skipped; a new one needs a known length.
pub fn decide_start(open: OpenOutcome, length: Option<u64>) -> (r: Start)
    ensures
        r == start_for(open, length),
{
    match open {
        OpenOutcome::AlreadyExists => Start::Skip,
        OpenOutcome::Failed(e) => Start::Abort(TransferError::Io(e)),
        OpenOutcome::Created => match length {
            Some(n) => Start::Stream(n),
            None => Start::Abort(TransferError::LengthUnknown),
        },
    }
}

/// A transfer in progress: it owns its slot's permit until `finish`.
pub struct Transfer {
    permit: Permit,
    total: u64,
    written: u64,
    chunks: Ghost<Seq<u64>>,
}

impl Transfer {
    pub closed spec fn slot(&self) -> nat {
        self.permit.slot()
    }

    /// The length that the stream reported.
    pub closed spec fn total_len(&self) -> u64 {
        self.total
    }

    /// The sizes of the chunks appended to the file so far, in order.
    pub closed spec fn recorded(&self) -> Seq<u64> {
        self.chunks@
    }

    /// Bytes appended to the file so far.
    pub open spec fn written_len(&self) -> nat {
        sum_of(self.recorded())
    }

    /// The byte count kept for the caller matches the recorded chunks.
    pub closed spec fn inv(&self) -> bool {
        self.written as nat == sum_of(self.chunks@)
    }

    /// The transfer holds a busy slot of `pool` that shows its progress.
    pub open spec fn tracks(&self, pool: &SlotPool) -> bool {
        &&& self.inv()
        &&& pool.wf()
        &&& self.slot() < pool.capacity()
        &&& pool.busy_flags()[self.slot() as int]
        &&& pool.positions()[self.slot() as int] == self.written_len()
        &&& pool.totals()[self.slot() as int] == self.total_len()
    }

    /// Starts streaming into the permit's slot, or, where `start` says not
    /// to stream, releases the slot and says how the transfer ended.
    pub fn begin(pool: &mut SlotPool, permit: Permit, start: Start, label: String) -> (r: Result<
        Transfer,
        Outcome,
    >)
        requires
            old(pool).wf(),
            permit.slot() < old(pool).capacity(),
            old(pool).busy_flags()[permit.slot() as int],
        ensures
            final(pool).wf(),
            match start {
                Start::Stream(total) => r matches Ok(t) && {
                    &&& t.tracks(final(pool))
                    &&& t.slot() == permit.slot()
                    &&& t.total_len() == total
                    &&& t.recorded() == Seq::<u64>::empty()
                    &&& final(pool).capacity() == old(pool).capacity()
                    &&& final(pool).permits() == old(pool).permits()
                    &&& final(pool).busy_flags() == old(pool).busy_flags()
                    &&& final(pool).labels() == old(pool).labels().update(
                        permit.slot() as int,
                        label@,
                    )
                    &&& final(pool).totals() == old(pool).totals().update(
                        permit.slot() as int,
                        total,
                    )
                    &&& final(pool).positions() == old(pool).positions().update(
                        permit.slot() as int,
                        0,
                    )
                },
                _ => {
                    &&& r == Err::<Transfer, Outcome>(early_outcome(start))
                    &&& SlotPool::released(old(pool), final(pool), permit.slot())
                },
            },
    {
        proof {
            pool.lemma_views_len();
        }
        match start {
            Start::Stream(total) => {
                pool.update(&permit, total, 0, label);
                Ok(Transfer { permit, total, written: 0, chunks: Ghost(Seq::empty()) })
            },
            Start::Skip => {
                pool.release(permit);
                Err(Outcome::Skipped)
            },
            Start::Abort(e) => {
                pool.release(permit);
                Err(Outcome::Failed(e))
            },
        }
    }

    /// Bytes appended to the file so far.
    pub fn written(&self) -> (r: u64)
        ensures
            self.inv() ==> r == self.written_len(),
    {
        self.written
    }

    pub fn total(&self) -> (r: u64)
        ensures
            r == self.total_len(),
    {
        self.total
    }

    /// Records a chunk of `n` bytes appended to the file and moves the slot on.
    pub fn record_chunk(&mut self, pool: &mut SlotPool, n: u64)
        requires
            old(self).tracks(old(pool)),
            old(self).written_len() + n <= u64::MAX,
        ensures
            final(self).tracks(final(pool)),
            final(self).slot() == old(self).slot(),
            final(self).total_len() == old(self).total_len(),
            final(self).recorded() == old(self).recorded().push(n),
            final(self).written_len() == old(self).written_len() + n,
            final(pool).capacity() == old(pool).capacity(),
            final(pool).permits() == old(pool).permits(),
            final(pool).busy_flags() == old(pool).busy_flags(),
            final(pool).labels() == old(pool).labels(),
            final(pool).totals() == old(pool).totals(),
            final(pool).positions() == old(pool).positions().update(
                old(self).slot() as int,
                (old(self).written_len() + n) as u64,
            ),
    {
        proof {
            pool.lemma_views_len();
        }
        pool.advance(&self.permit, n);
        self.written = self.written + n;
        let ghost prev = self.chunks@;
        self.chunks = Ghost(prev.push(n));
        proof {
            assert(self.chunks@.drop_last() =~= prev);
        }
    }

    /// Ends the transfer, releases its slot, and says how it ended.
    pub fn finish(self, pool: &mut SlotPool, end: StreamEnd) -> (r: Outcome)
        requires
            self.tracks(old(pool)),
        ensures
            final(pool).wf(),
            SlotPool::released(old(pool), final(pool), self.slot()),
            r == end_outcome(end),
    {
        pool.release(self.permit);
        match end {
            StreamEnd::Finished => Outcome::Completed,
            StreamEnd::StreamFailed(e) => Outcome::Failed(TransferError::Stream(e)),
            StreamEnd::WriteFailed(e) => Outcome::Failed(TransferError::Io(e)),
        }
    }
}

/// A destination that already exists is skipped, whatever length the
/// stream reports, and no transfer is begun that could write to it.
pub proof fn lemma_existing_destination_skipped(length: Option<u64>)
    ensures
        start_for(OpenOutcome::AlreadyExists, length) == Start::Skip,
        early_outcome(Start::Skip) == Outcome::Skipped,
{
}

/// When the chunks written add up to the reported length, the file holds
/// exactly that many bytes and the slot's position stands at that length;
/// a stream that then finishes completes the transfer.
pub proof fn lemma_completed_size_is_total(t: &Transfer, pool: &SlotPool)
    requires
        t.tracks(pool),
        sum_of(t.recorded()) == t.total_len(),
    ensures
        t.written_len() == t.total_len(),
        pool.positions()[t.slot() as int] == t.total_len(),
        pool.totals()[t.slot() as int] == t.total_len(),
        end_outcome(StreamEnd::Finished) == Outcome::Completed,
{
}

} // verus!
