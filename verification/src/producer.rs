//! The block producer's decisions: what each read outcome does to the
//! producer's state.  The reading itself is I/O and stays outside; the
//! sequence numbering, the stopping rule and the recorded exit status
//! are decided here.

use vstd::prelude::*;

verus! {

/// What one attempt to fill a buffer from the input stream yielded.
#[derive(Debug, Clone, Copy, PartialEq, Eq, Structural)]
pub enum ReadEvent {
    /// zero bytes were read: the stream ended
    End,
    /// the buffer was filled with at least one byte
    Filled,
    /// the read failed
    Failed,
}

/// What the producer does next.
#[derive(Debug, Clone, Copy, PartialEq, Eq, Structural)]
pub enum ProducerAction {
    /// publish the filled block under this sequence number
    Publish(u64),
    /// publish nothing more and close the output
    Stop,
}

/// Assigns sequence numbers 0, 1, 2, … to published blocks — strictly
/// increasing, gapless, never reused — and records whether the stream
/// ended cleanly or with a read failure.
pub struct Producer {
    next_sequence: u64,
    failed: bool,
}

impl Producer {
    /// How many blocks have been published; the next one gets exactly
    /// this sequence number.
    pub closed spec fn published(&self) -> u64 {
        self.next_sequence
    }

    /// Whether a read failure was recorded.
    pub closed spec fn recorded_failure(&self) -> bool {
        self.failed
    }

    /// A fresh producer: nothing published, no failure.
    pub fn new() -> (p: Producer)
        ensures
            p.published() == 0,
            !p.recorded_failure(),
    {
        Producer { next_sequence: 0, failed: false }
    }

    /// How many blocks have been published, for callers outside proofs.
    pub fn published_count(&self) -> (n: u64)
        ensures
            n == self.published(),
    {
        self.next_sequence
    }

    /// One step.  A filled block is published under the next sequence
    /// number, used once and never again; the end of the stream stops
    /// the producer without publishing; a failed read stops it and
    /// records the failure.
    pub fn on_read(&mut self, event: ReadEvent) -> (a: ProducerAction)
        requires
            old(self).published() < u64::MAX,
        ensures
            match event {
                ReadEvent::Filled => {
                    &&& a == ProducerAction::Publish(old(self).published())
                    &&& final(self).published() == old(self).published() + 1
                    &&& final(self).recorded_failure() == old(self).recorded_failure()
                },
                ReadEvent::End => a == ProducerAction::Stop && *final(self) == *old(self),
                ReadEvent::Failed => {
                    &&& a == ProducerAction::Stop
                    &&& final(self).published() == old(self).published()
                    &&& final(self).recorded_failure()
                },
            },
    {
        match event {
            ReadEvent::Filled => {
                let s = self.next_sequence;
                self.next_sequence = s + 1;
                ProducerAction::Publish(s)
            },
            ReadEvent::End => ProducerAction::Stop,
            ReadEvent::Failed => {
                self.failed = true;
                ProducerAction::Stop
            },
        }
    }

    /// The process exit status: zero exactly on a clean end of input,
    /// one if a read failure was recorded.
    pub fn exit_code(&self) -> (r: i32)
        ensures
            self.recorded_failure() ==> r == 1,
            !self.recorded_failure() ==> r == 0,
    {
        if self.failed {
            1
        } else {
            0
        }
    }
}

} // verus!
