//! Per-block hashing: a writer that streams bytes into a keyed hasher
//! while counting them, and the digest of one sequence-numbered block.

use vstd::prelude::*;
use siphasher::sip128::SipHasher;
use crate::sip::sip_fed;
use crate::sip::sip128_of;
use crate::sip::u64_le_bytes;
use crate::sip::sip_new;
use crate::sip::sip_write;
use crate::sip::sip_write_u64;
use crate::sip::sip_finish;

verus! {

/// The 128-bit digest of part of the stream together with the number of
/// bytes it covers.
#[derive(Debug, Clone, Copy)]
pub struct HashResult {
    pub hash: u128,
    pub len: u64,
}

impl HashResult {
    /// Fold another partial result into this one: digests combine by
    /// exclusive-or, byte counts by addition.
    pub fn add(&mut self, other: HashResult)
        requires
            old(self).len + other.len <= u64::MAX,
        ensures
            final(self).hash == old(self).hash ^ other.hash,
            final(self).len == old(self).len + other.len,
    {
        self.hash = self.hash ^ other.hash;
        self.len = self.len + other.len;
    }
}

impl Default for HashResult {
    /// The combined digest of zero blocks: hash 0, length 0.
    fn default() -> (r: Self)
        ensures
            r.hash == 0,
            r.len == 0,
    {
        HashResult { hash: 0, len: 0 }
    }
}

/// A per-block digest tagged with the block's sequence number.
#[derive(Debug, Clone, Copy)]
pub struct HashResultIdx(pub u64, pub HashResult);

/// A keyed hasher that also counts the payload bytes fed into it.
pub struct HashWriter {
    hash: SipHasher,
    len: u64,
}

impl HashWriter {
    /// All bytes fed into the hasher so far, prefix included.
    pub closed spec fn fed(&self) -> Seq<u8> {
        sip_fed(self.hash)
    }

    /// The payload bytes counted so far (the prefix is not counted).
    pub closed spec fn counted(&self) -> u64 {
        self.len
    }

    /// A fresh writer: nothing fed, nothing counted.
    pub fn new() -> (w: HashWriter)
        ensures
            w.fed() == Seq::<u8>::empty(),
            w.counted() == 0,
    {
        HashWriter { hash: sip_new(), len: 0 }
    }

    /// Feed the block's sequence number as a fixed-width little-endian
    /// prefix; it is hashed but not counted toward the byte length.
    pub fn write_prefix(&mut self, sequence: u64)
        ensures
            final(self).fed() == old(self).fed() + u64_le_bytes(sequence),
            final(self).counted() == old(self).counted(),
    {
        sip_write_u64(&mut self.hash, sequence);
    }

    /// Feed payload bytes: they are both hashed and counted.
    pub fn write(&mut self, bytes: &[u8]) -> (n: usize)
        requires
            old(self).counted() + bytes@.len() <= u64::MAX,
        ensures
            final(self).fed() == old(self).fed() + bytes@,
            final(self).counted() == old(self).counted() + bytes@.len(),
            n == bytes@.len(),
    {
        self.len = self.len + bytes.len() as u64;
        sip_write(&mut self.hash, bytes);
        bytes.len()
    }

    /// Nothing is buffered, so there is nothing to flush.
    pub fn flush(&mut self)
        ensures
            *final(self) == *old(self),
    {
    }

    /// Finish: the digest of everything fed, and the payload byte count.
    pub fn close(self) -> (r: HashResult)
        ensures
            r.hash == sip128_of(self.fed()),
            r.len == self.counted(),
    {
        let h = sip_finish(&self.hash);
        HashResult { hash: h, len: self.len }
    }
}

/// The digest of one block: the sequence number as a fixed-width
/// little-endian prefix, then the block's bytes.  Mixing the position in
/// makes the per-block digest depend on where the block stands, not only
/// on its content.
pub open spec fn block_hash(sequence: u64, bytes: Seq<u8>) -> u128 {
    sip128_of(u64_le_bytes(sequence) + bytes)
}

/// The worker step: the keyed digest of one sequence-numbered block.
pub fn hash_block(sequence: u64, bytes: &[u8]) -> (r: HashResultIdx)
    ensures
        r.0 == sequence,
        r.1.hash == block_hash(sequence, bytes@),
        r.1.len == bytes@.len(),
{
    // the length call puts bytes@.len() within the writer's u64 bound
    let _len: usize = bytes.len();
    let mut w = HashWriter::new();
    w.write_prefix(sequence);
    w.write(bytes);
    proof {
        assert(w.fed() =~= u64_le_bytes(sequence) + bytes@);
    }
    HashResultIdx(sequence, w.close())
}

} // verus!
