//! Trusted boundary to the SipHash implementation in the `siphasher` crate.
//!
//! The hasher state is modelled by the sequence of bytes fed into it so
//! far (`sip_fed`); the digest of a byte sequence is given the name
//! `sip128_of`.  Everything else in the crate is proved against these
//! contracts.

use vstd::prelude::*;
use std::hash::Hasher;
use siphasher::sip128::Hasher128;
use siphasher::sip128::SipHasher;

verus! {

#[verifier::external_type_specification]
#[verifier::external_body]
pub struct ExSipHasher(SipHasher);

/// The bytes fed so far into a running hasher state.
pub uninterp spec fn sip_fed(h: SipHasher) -> Seq<u8>;

/// The 128-bit SipHash-2-4 digest, under the all-zero key, of a byte
/// sequence.
pub uninterp spec fn sip128_of(data: Seq<u8>) -> u128;

/// The eight little-endian bytes of a 64-bit integer.
#[verifier::opaque]
pub open spec fn u64_le_bytes(v: u64) -> Seq<u8> {
    seq![
        (v % 256) as u8,
        ((v / 256) % 256) as u8,
        ((v / 65536) % 256) as u8,
        ((v / 16777216) % 256) as u8,
        ((v / 4294967296) % 256) as u8,
        ((v / 1099511627776) % 256) as u8,
        ((v / 281474976710656) % 256) as u8,
        ((v / 72057594037927936) % 256) as u8,
    ]
}

/// Relies on SipHasher::new: a fresh state keyed with two zero keys and
/// no bytes fed yet.
#[verifier::external_body]
pub(crate) fn sip_new() -> (h: SipHasher)
    ensures
        sip_fed(h) == Seq::<u8>::empty(),
{
    SipHasher::new()
}

/// Relies on the Hasher::write impl for SipHasher: it appends the given
/// bytes to the hashed stream, with no framing of its own.
#[verifier::external_body]
pub(crate) fn sip_write(h: &mut SipHasher, bytes: &[u8])
    ensures
        sip_fed(*final(h)) == sip_fed(*old(h)) + bytes@,
{
    h.write(bytes);
}

/// Relies on the Hasher::write_u64 impl for SipHasher: it appends the
/// integer's little-endian bytes to the hashed stream, on every machine.
#[verifier::external_body]
pub(crate) fn sip_write_u64(h: &mut SipHasher, v: u64)
    ensures
        sip_fed(*final(h)) == sip_fed(*old(h)) + u64_le_bytes(v),
{
    h.write_u64(v);
}

/// Relies on SipHasher::finish128 and u128::from(Hash128): the digest of
/// exactly the bytes fed so far, independent of how they were chunked
/// across write calls, read without disturbing the state.
#[verifier::external_body]
pub(crate) fn sip_finish(h: &SipHasher) -> (r: u128)
    ensures
        r == sip128_of(sip_fed(*h)),
{
    u128::from(h.finish128())
}

} // verus!
