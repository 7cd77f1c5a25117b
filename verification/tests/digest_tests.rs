use std::hash::Hasher;

use siphasher::sip128::Hasher128;
use siphasher::sip128::SipHasher;

use sipstream::digest::hash_block;
use sipstream::digest::HashResult;
use sipstream::digest::HashWriter;

/// The per-block prefixing rule, computed straight on the hasher crate:
/// sequence number as a little-endian prefix, then the block's bytes.
fn reference_block_digest(sequence: u64, bytes: &[u8]) -> u128 {
    let mut h = SipHasher::new();
    h.write_u64(sequence);
    h.write(bytes);
    u128::from(h.finish128())
}

#[test]
fn hash_block_matches_reference() {
    assert_eq!(
        hash_block(0, b"hello").1.hash,
        reference_block_digest(0, b"hello")
    );
    assert_eq!(
        hash_block(41, b"").1.hash,
        reference_block_digest(41, b"")
    );
    assert_eq!(
        hash_block(u64::MAX - 1, b"xyz").1.hash,
        reference_block_digest(u64::MAX - 1, b"xyz")
    );
}

#[test]
fn hash_block_reports_sequence_and_length() {
    let d = hash_block(7, b"abcd");
    assert_eq!(d.0, 7);
    assert_eq!(d.1.len, 4);
    let e = hash_block(0, b"");
    assert_eq!(e.0, 0);
    assert_eq!(e.1.len, 0);
}

#[test]
fn prefix_changes_the_digest() {
    // the same bytes under two sequence numbers hash differently: the
    // prefix is really fed into the hasher
    let a = hash_block(0, b"same bytes");
    let b = hash_block(1, b"same bytes");
    assert_ne!(a.1.hash, b.1.hash);
    // and the prefixed digest differs from the digest of the bare bytes
    let mut bare = SipHasher::new();
    bare.write(b"same bytes");
    assert_ne!(a.1.hash, u128::from(bare.finish128()));
}

#[test]
fn writer_matches_reference() {
    let mut w = HashWriter::new();
    w.write_prefix(7);
    let n = w.write(b"hello");
    assert_eq!(n, 5);
    w.flush();
    let r = w.close();
    assert_eq!(r.hash, reference_block_digest(7, b"hello"));
    assert_eq!(r.len, 5);
}

#[test]
fn writer_chunking_is_invisible() {
    let mut w1 = HashWriter::new();
    w1.write(b"hello ");
    w1.write(b"world");
    let r1 = w1.close();

    let mut w2 = HashWriter::new();
    w2.write(b"hello world");
    let r2 = w2.close();

    assert_eq!(r1.hash, r2.hash);
    assert_eq!(r1.len, r2.len);
    assert_eq!(r1.len, 11);
}

#[test]
fn writer_prefix_is_not_counted() {
    let mut w = HashWriter::new();
    w.write_prefix(123);
    let r = w.close();
    assert_eq!(r.len, 0);
}

#[test]
fn add_combines_by_xor_and_sum() {
    let mut a = HashResult { hash: 0b1100, len: 10 };
    let b = HashResult { hash: 0b1010, len: 32 };
    a.add(b);
    assert_eq!(a.hash, 0b0110);
    assert_eq!(a.len, 42);
    // folding the same digest twice cancels the hash, not the length
    a.add(b);
    assert_eq!(a.hash, 0b1100);
    assert_eq!(a.len, 74);
}

#[test]
fn default_is_the_empty_fold() {
    let d = HashResult::default();
    assert_eq!(d.hash, 0);
    assert_eq!(d.len, 0);
}
