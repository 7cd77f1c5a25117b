use std::hash::Hasher;

use siphasher::sip128::Hasher128;
use siphasher::sip128::SipHasher;

use sipstream::stream::run_single;

fn block_digest(sequence: u64, bytes: &[u8]) -> u128 {
    let mut h = SipHasher::new();
    h.write_u64(sequence);
    h.write(bytes);
    u128::from(h.finish128())
}

/// The reference single-pass computation, with the same per-block
/// prefixing and fold rule as the pipeline.
fn reference_stream_digest(input: &[u8], block_size: usize) -> (u128, u64) {
    let mut acc: u128 = 0;
    let mut len: u64 = 0;
    for (i, chunk) in input.chunks(block_size).enumerate() {
        acc ^= block_digest(i as u64, chunk);
        len += chunk.len() as u64;
    }
    (acc, len)
}

fn sample(n: usize) -> Vec<u8> {
    (0..n).map(|i| (i % 251) as u8).collect()
}

#[test]
fn empty_input_yields_the_empty_fold() {
    let r = run_single(&[], 512);
    assert_eq!(r.hash, 0);
    assert_eq!(r.len, 0);
    // the empty combined value does not depend on the block size
    let r2 = run_single(&[], 4);
    assert_eq!(r2.hash, 0);
    assert_eq!(r2.len, 0);
}

#[test]
fn length_is_exact_at_every_boundary() {
    let bs: usize = 8;
    for n in [0usize, 1, 7, 8, 9, 24, 35] {
        let data = sample(n);
        let r = run_single(&data, bs);
        assert_eq!(r.len, n as u64);
        let (eh, el) = reference_stream_digest(&data, bs);
        assert_eq!(r.hash, eh);
        assert_eq!(r.len, el);
    }
}

#[test]
fn single_block_matches_its_reference() {
    let data = b"0123456789abcdef";
    let one = run_single(data, 16);
    assert_eq!(one.hash, block_digest(0, data));
    assert_eq!(one.len, 16);
}

#[test]
fn split_blocks_match_reference_with_same_scheme() {
    // the same sixteen bytes, cut into four-byte blocks: equal to the
    // reference single pass that applies the same sequence-numbering
    // and fold scheme to each sub-block
    let data = b"0123456789abcdef";
    let split = run_single(data, 4);
    let mut acc: u128 = 0;
    for (i, chunk) in data.chunks(4).enumerate() {
        acc ^= block_digest(i as u64, chunk);
    }
    assert_eq!(split.hash, acc);
    assert_eq!(split.len, 16);
    // a different block size is a different scheme: the digests differ
    let one = run_single(data, 16);
    assert_ne!(split.hash, one.hash);
}

#[test]
fn swapping_two_blocks_changes_the_digest() {
    // the same multiset of blocks in a different order: the sequence
    // prefix makes the combined digest move
    let forward = run_single(b"AAAABBBB", 4);
    let swapped = run_single(b"BBBBAAAA", 4);
    assert_ne!(forward.hash, swapped.hash);
    assert_eq!(forward.len, swapped.len);
}

#[test]
fn run_single_is_deterministic() {
    let data = sample(1000);
    let a = run_single(&data, 64);
    let b = run_single(&data, 64);
    assert_eq!(a.hash, b.hash);
    assert_eq!(a.len, b.len);
}
