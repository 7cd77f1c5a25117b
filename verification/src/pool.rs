//! The buffer pool: a fixed population of recyclable block buffers.
//!
//! A buffer is held by exactly one stage at a time: the pool hands it
//! out, the holder fills, hashes and drains it, and only then does it
//! come back.  Because the population is fixed at creation and nothing
//! is ever allocated afterwards, the pool bounds the number of blocks
//! in flight — this is what turns a fast producer into a blocked one
//! instead of an unbounded one.

use vstd::prelude::*;

verus! {

/// A sequence-numbered block buffer: the unit shuttled between the
/// producer and the workers.
pub struct Buf(pub u64, pub Vec<u8>);

/// A fixed population of recyclable buffers.
pub struct BufferPool {
    free: Vec<Buf>,
    population: usize,
}

impl BufferPool {
    /// How many buffers are free right now.
    pub closed spec fn available(&self) -> nat {
        self.free@.len()
    }

    /// The fixed number of buffers the pool was created with.
    pub closed spec fn population(&self) -> nat {
        self.population as nat
    }

    /// No more buffers can ever be free than were created, and every
    /// free buffer is drained: its bytes were cleared when it came back.
    pub closed spec fn wf(&self) -> bool {
        &&& self.free@.len() <= self.population
        &&& forall|j: int|
            0 <= j < self.free@.len() ==> (#[trigger] self.free@[j]).1@.len() == 0
    }

    /// A pool of `count` empty buffers, each pre-sized to hold one full
    /// block.
    pub fn new(count: usize, block_size: usize) -> (p: BufferPool)
        ensures
            p.wf(),
            p.available() == count,
            p.population() == count,
    {
        let mut free: Vec<Buf> = Vec::new();
        let mut i: usize = 0;
        while i < count
            invariant
                free@.len() == i,
                i <= count,
                forall|j: int| 0 <= j < i ==> (#[trigger] free@[j]).1@.len() == 0,
            decreases count - i,
        {
            free.push(Buf(0, Vec::with_capacity(block_size)));
            i = i + 1;
        }
        BufferPool { free, population: count }
    }

    /// Hand out a free buffer, if any is left; the pool shrinks by one
    /// and the holder starts from a drained buffer.
    pub fn acquire(&mut self) -> (r: Option<Buf>)
        requires
            old(self).wf(),
        ensures
            final(self).wf(),
            final(self).population() == old(self).population(),
            match r {
                Some(b) => old(self).available() > 0
                    && final(self).available() == old(self).available() - 1
                    && b.1@.len() == 0,
                None => old(self).available() == 0 && final(self).available() == 0,
            },
    {
        self.free.pop()
    }

    /// Take a drained buffer back: its bytes are cleared for reuse and
    /// the pool grows by one.  Only buffers that came from the pool
    /// return to it, so the population is never exceeded.
    pub fn release(&mut self, b: Buf)
        requires
            old(self).wf(),
            old(self).available() < old(self).population(),
        ensures
            final(self).wf(),
            final(self).population() == old(self).population(),
            final(self).available() == old(self).available() + 1,
    {
        let mut b = b;
        b.1.clear();
        self.free.push(b);
    }
}

} // verus!
