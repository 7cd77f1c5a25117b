//! Cutting the stream into fixed-size, sequence-numbered blocks, and the
//! combined digest of a whole stream: the exclusive-or of every block's
//! keyed digest, plus the total byte length.
//!
//! `run_single` is the single-threaded pass: it produces, hashes and
//! folds the blocks in order.  The reducer lemmas below say that a
//! worker pool feeding the same per-block digests to a reducer — in any
//! arrival order — combines them to exactly the same result.

use vstd::prelude::*;
use vstd::slice::slice_subrange;
use vstd::arithmetic::div_mod::lemma_fundamental_div_mod;
use vstd::arithmetic::div_mod::lemma_fundamental_div_mod_converse_div;
use vstd::arithmetic::mul::lemma_mul_inequality;
use crate::digest::HashResult;
use crate::digest::block_hash;
use crate::digest::hash_block;
use crate::reducer::Reducer;
use crate::reducer::xor_fold;
use crate::reducer::len_fold;
use crate::reducer::lemma_combined_is_fold;

verus! {

/// How many blocks a stream of `len` bytes cuts into: the last block may
/// be short, and a stream of zero bytes has no blocks at all.
pub open spec fn num_blocks(len: int, bsize: int) -> int {
    (len + bsize - 1) / bsize
}

/// The i-th block of the stream: at most `bsize` bytes starting at
/// `i * bsize`.
pub open spec fn block_at(input: Seq<u8>, bsize: int, i: int) -> Seq<u8> {
    input.subrange(
        i * bsize,
        if (i + 1) * bsize <= input.len() {
            (i + 1) * bsize
        } else {
            input.len() as int
        },
    )
}

/// The exclusive-or of the first n per-block digests of the stream.
pub open spec fn stream_hash(input: Seq<u8>, bsize: int, n: int) -> u128
    decreases n,
{
    if n <= 0 {
        0u128
    } else {
        stream_hash(input, bsize, n - 1) ^ block_hash((n - 1) as u64, block_at(input, bsize, n - 1))
    }
}

/// The combined digest of the whole stream: what a single-threaded pass
/// over the blocks, in order, produces.
pub open spec fn stream_digest(input: Seq<u8>, bsize: int) -> u128 {
    stream_hash(input, bsize, num_blocks(input.len() as int, bsize))
}

/// A stream of exactly k full blocks cuts into k blocks.
proof fn lemma_num_blocks_full(bsize: int, k: int)
    requires
        bsize >= 1,
        0 <= k,
    ensures
        num_blocks(k * bsize, bsize) == k,
{
    lemma_fundamental_div_mod_converse_div(k * bsize + bsize - 1, bsize, k, bsize - 1);
}

/// A stream that ends strictly inside its (k+1)-th block slot cuts into
/// k + 1 blocks.
proof fn lemma_num_blocks_partial(len: int, bsize: int, k: int)
    requires
        bsize >= 1,
        0 <= k,
        k * bsize < len,
        len <= (k + 1) * bsize,
    ensures
        num_blocks(len, bsize) == k + 1,
{
    assert((k + 1) * bsize == k * bsize + bsize) by (nonlinear_arith);
    lemma_fundamental_div_mod_converse_div(
        len + bsize - 1,
        bsize,
        k + 1,
        len - 1 - k * bsize,
    );
}

/// Every block but possibly the last starts strictly inside the stream.
proof fn lemma_block_starts_inside(len: int, bsize: int, k: int)
    requires
        bsize >= 1,
        0 <= len,
        0 <= k,
        k < num_blocks(len, bsize),
    ensures
        k * bsize < len,
{
    let x = len + bsize - 1;
    let q = num_blocks(len, bsize);
    lemma_fundamental_div_mod(x, bsize);
    lemma_mul_inequality(k + 1, q, bsize);
    assert((k + 1) * bsize == k * bsize + bsize) by (nonlinear_arith);
}

/// The blocks cover the stream: the block count is nonnegative and its
/// slots reach at least to the end.
proof fn lemma_num_blocks_bounds(len: int, bsize: int)
    requires
        bsize >= 1,
        0 <= len,
    ensures
        num_blocks(len, bsize) >= 0,
        num_blocks(len, bsize) * bsize >= len,
{
    let x = len + bsize - 1;
    let q = num_blocks(len, bsize);
    lemma_fundamental_div_mod(x, bsize);
    if q < 0 {
        lemma_mul_inequality(q, -1, bsize);
        assert(false);
    }
    assert(q * bsize == bsize * q) by (nonlinear_arith);
}

/// Zero bytes make zero blocks: the combined digest of the empty stream
/// is the fold of nothing, 0, at every block size, and its length 0.
pub proof fn lemma_empty_stream_digest(bsize: int)
    requires
        bsize >= 1,
    ensures
        stream_digest(Seq::<u8>::empty(), bsize) == 0,
{
    assert(0 * bsize == 0) by (nonlinear_arith);
    lemma_num_blocks_full(bsize, 0);
}

/// A stream that fits in one block folds to exactly that block's
/// digest, under sequence number 0.  Splitting the same bytes over a
/// smaller block size folds several prefixed digests instead — equal to
/// the whole only when the same sequence-numbering scheme is applied to
/// the same cut.
pub proof fn lemma_single_block_digest(input: Seq<u8>, bsize: int)
    requires
        bsize >= 1,
        1 <= input.len() <= bsize,
    ensures
        stream_digest(input, bsize) == block_hash(0, input),
{
    assert(0 * bsize == 0 && 1 * bsize == bsize) by (nonlinear_arith);
    lemma_num_blocks_partial(input.len() as int, bsize, 0);
    assert(num_blocks(input.len() as int, bsize) == 1);
    assert(block_at(input, bsize, 0) =~= input);
    let h = block_hash(0, input);
    assert(stream_hash(input, bsize, 1) == stream_hash(input, bsize, 0) ^ h);
    assert(stream_hash(input, bsize, 0) == 0u128);
    assert(0u128 ^ h == h) by (bit_vector);
}

/// The single-threaded pass: cut the input into blocks of `block_size`
/// bytes (the last may be short), hash each with its sequence number as
/// prefix, and fold the digests in order.  The result is the stream's
/// combined digest and its exact byte length.
pub fn run_single(input: &[u8], block_size: usize) -> (r: HashResult)
    requires
        block_size >= 1,
    ensures
        r.hash == stream_digest(input@, block_size as int),
        r.len == input@.len(),
{
    let len: usize = input.len();
    let ghost bs = block_size as int;
    let mut total = HashResult { hash: 0, len: 0 };
    let mut sequence: u64 = 0;
    let mut offset: usize = 0;
    while offset < len
        invariant
            block_size >= 1,
            bs == block_size as int,
            len == input@.len(),
            offset <= len,
            total.hash == stream_hash(input@, bs, sequence as int),
            total.len == offset,
            sequence as int <= offset as int,
            offset as int == sequence as int * bs
                || (offset == len && num_blocks(len as int, bs) == sequence as int),
        decreases len - offset,
    {
        let ghost s = sequence as int;
        let remaining = len - offset;
        let end = if remaining > block_size {
            offset + block_size
        } else {
            len
        };
        proof {
            assert((s + 1) * bs == s * bs + bs) by (nonlinear_arith);
            assert(block_at(input@, bs, s)
                == input@.subrange(offset as int, end as int));
        }
        let chunk = slice_subrange(input, offset, end);
        let d = hash_block(sequence, chunk);
        total.add(d.1);
        offset = end;
        sequence = sequence + 1;
        proof {
            if offset == len && offset as int != sequence as int * bs {
                lemma_num_blocks_partial(len as int, bs, s);
            }
        }
    }
    proof {
        if offset as int == sequence as int * bs {
            lemma_num_blocks_full(bs, sequence as int);
        }
    }
    total
}

/// Every per-block digest of the first n blocks, folded, gives the same
/// running hash as the single pass, and covers exactly the bytes of
/// those blocks.
proof fn lemma_fold_matches_blocks(
    m: Map<u64, HashResult>,
    input: Seq<u8>,
    bsize: int,
    n: int,
)
    requires
        bsize >= 1,
        0 <= n,
        n <= u64::MAX,
        n <= num_blocks(input.len() as int, bsize),
        forall|i: u64| i < n ==> #[trigger] m.contains_key(i)
            && m[i].hash == block_hash(i, block_at(input, bsize, i as int))
            && m[i].len == block_at(input, bsize, i as int).len(),
    ensures
        xor_fold(m, n) == stream_hash(input, bsize, n),
        len_fold(m, n) == if n * bsize <= input.len() {
            n * bsize
        } else {
            input.len() as int
        },
    decreases n,
{
    let len = input.len() as int;
    if n == 0 {
        assert(0 * bsize == 0) by (nonlinear_arith);
    } else {
        lemma_fold_matches_blocks(m, input, bsize, n - 1);
        lemma_block_starts_inside(len, bsize, n - 1);
        assert(n * bsize == (n - 1) * bsize + bsize) by (nonlinear_arith);
        lemma_mul_inequality(0, n - 1, bsize);
        assert(0 * bsize == 0) by (nonlinear_arith);
        assert(m.contains_key((n - 1) as u64));
        assert(block_at(input, bsize, n - 1).len()
            == (if n * bsize <= len { n * bsize } else { len }) - (n - 1) * bsize);
    }
}

/// The pipeline's central law.  A reducer that received exactly one
/// digest per block of a stream — each block's keyed digest with the
/// block's byte count, under the block's sequence number — combines
/// them to the digest and length of the single-threaded pass over that
/// stream.  Nothing here depends on which worker hashed which block or
/// in what order the digests arrived.
pub proof fn lemma_reducer_matches_stream(r: Reducer, input: Seq<u8>, bsize: int)
    requires
        r.wf(),
        r.complete(),
        bsize >= 1,
        r.next_expected() as int == num_blocks(input.len() as int, bsize),
        forall|i: u64| i < r.next_expected()
            ==> (#[trigger] r.received()[i]).hash == block_hash(i, block_at(input, bsize, i as int))
                && r.received()[i].len == block_at(input, bsize, i as int).len(),
    ensures
        r.combined().hash == stream_digest(input, bsize),
        r.combined().len == input.len(),
{
    lemma_combined_is_fold(r);
    lemma_num_blocks_bounds(input.len() as int, bsize);
    lemma_fold_matches_blocks(
        r.received(),
        input,
        bsize,
        r.next_expected() as int,
    );
}

} // verus!
