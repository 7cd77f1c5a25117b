//! The ordered reducer: it receives per-block digests in whatever order
//! the workers finish them, buffers the ones that came early, and folds
//! each digest exactly once, in strictly increasing sequence order.
//!
//! The reducer is modelled by the map from sequence number to digest of
//! everything it has received (`received`).  Its whole observable state
//! is a function of that map alone, which is what makes the pipeline's
//! result independent of arrival order.

use vstd::prelude::*;
use crate::digest::HashResult;
use crate::digest::HashResultIdx;

verus! {

/// The exclusive-or of the digests recorded for sequence numbers 0..n.
pub open spec fn xor_fold(m: Map<u64, HashResult>, n: int) -> u128
    decreases n,
{
    if n <= 0 {
        0u128
    } else {
        xor_fold(m, n - 1) ^ m[(n - 1) as u64].hash
    }
}

/// The summed byte counts of the digests recorded for 0..n.
pub open spec fn len_fold(m: Map<u64, HashResult>, n: int) -> int
    decreases n,
{
    if n <= 0 {
        0
    } else {
        len_fold(m, n - 1) + m[(n - 1) as u64].len
    }
}

/// The summed byte counts of a batch of buffered digests.
pub open spec fn pending_len_sum(s: Seq<HashResultIdx>) -> int
    decreases s.len(),
{
    if s.len() == 0 {
        0
    } else {
        pending_len_sum(s.drop_last()) + s.last().1.len
    }
}

proof fn lemma_pending_len_sum_nonneg(s: Seq<HashResultIdx>)
    ensures
        pending_len_sum(s) >= 0,
    decreases s.len(),
{
    if s.len() > 0 {
        lemma_pending_len_sum_nonneg(s.drop_last());
    }
}

proof fn lemma_pending_len_sum_push(s: Seq<HashResultIdx>, item: HashResultIdx)
    ensures
        pending_len_sum(s.push(item)) == pending_len_sum(s) + item.1.len,
{
    assert(s.push(item).drop_last() =~= s);
    assert(s.push(item).last() == item);
}

proof fn lemma_pending_len_sum_remove(s: Seq<HashResultIdx>, j: int)
    requires
        0 <= j < s.len(),
    ensures
        pending_len_sum(s.remove(j)) == pending_len_sum(s) - s[j].1.len,
    decreases s.len(),
{
    if j == s.len() - 1 {
        assert(s.remove(j) =~= s.drop_last());
    } else {
        assert(s.remove(j).drop_last() =~= s.drop_last().remove(j));
        assert(s.remove(j).last() == s.last());
        lemma_pending_len_sum_remove(s.drop_last(), j);
    }
}

/// Inserting a digest at or above n leaves the folds over 0..n alone.
proof fn lemma_fold_insert_above(m: Map<u64, HashResult>, k: u64, v: HashResult, n: int)
    requires
        n <= k,
    ensures
        xor_fold(m.insert(k, v), n) == xor_fold(m, n),
        len_fold(m.insert(k, v), n) == len_fold(m, n),
    decreases n,
{
    if n > 0 {
        lemma_fold_insert_above(m, k, v, n - 1);
    }
}

/// Collects per-block digests that may arrive out of order and folds
/// each exactly once, in strictly increasing sequence order.
pub struct Reducer {
    pending: Vec<HashResultIdx>,
    next: u64,
    total: HashResult,
    hist: Ghost<Map<u64, HashResult>>,
}

/// The reducer's internal invariant over its raw parts, except that
/// buffered digests are only required to sit at or above `next` (during
/// a drain, the digest whose turn has come is still buffered).
spec fn inv_core(
    pending: Seq<HashResultIdx>,
    next: u64,
    total: HashResult,
    hist: Map<u64, HashResult>,
) -> bool {
    &&& forall|i: u64| i < next ==> #[trigger] hist.contains_key(i)
    &&& forall|i: u64| #[trigger] hist.contains_key(i) ==> i < u64::MAX
    &&& forall|j: int|
        0 <= j < pending.len() ==> (#[trigger] pending[j]).0 >= next
    &&& forall|j: int|
        0 <= j < pending.len() ==> hist.contains_key((#[trigger] pending[j]).0)
            && hist[pending[j].0] == pending[j].1
    &&& forall|j: int, k: int|
        0 <= j < k < pending.len() ==> (#[trigger] pending[j]).0 != (#[trigger] pending[k]).0
    &&& forall|i: u64|
        #[trigger] hist.contains_key(i) ==> i < next || exists|j: int|
            0 <= j < pending.len() && (#[trigger] pending[j]).0 == i
    &&& total.hash == xor_fold(hist, next as int)
    &&& total.len as int == len_fold(hist, next as int)
    &&& total.len + pending_len_sum(pending) <= u64::MAX
}

/// One drain step: removing the buffered digest whose turn has come and
/// folding it into the total re-establishes the core invariant one
/// sequence number further on.
proof fn lemma_drain_step(
    before: Seq<HashResultIdx>,
    after: Seq<HashResultIdx>,
    j: int,
    bnext: u64,
    total: HashResult,
    hist: Map<u64, HashResult>,
)
    requires
        0 <= j < before.len(),
        after == before.remove(j),
        before[j].0 == bnext,
        bnext < u64::MAX,
        exists|t0: HashResult|
            inv_core(before, bnext, t0, hist)
                && total.hash == t0.hash ^ before[j].1.hash
                && total.len == t0.len + before[j].1.len,
    ensures
        inv_core(after, (bnext + 1) as u64, total, hist),
{
    let t0 = choose|t0: HashResult|
        inv_core(before, bnext, t0, hist)
            && total.hash == t0.hash ^ before[j].1.hash
            && total.len == t0.len + before[j].1.len;
    let next1 = (bnext + 1) as u64;
    assert(forall|k: int| 0 <= k < j ==> #[trigger] after[k] == before[k]);
    assert(forall|k: int| j <= k < after.len() ==> #[trigger] after[k] == before[k + 1]);
    lemma_pending_len_sum_remove(before, j);

    // the folded digest is the one recorded for bnext
    assert(hist.contains_key(bnext) && hist[bnext] == before[j].1);

    // the folds advance by exactly the folded digest
    assert(xor_fold(hist, next1 as int)
        == xor_fold(hist, bnext as int) ^ hist[bnext].hash);
    assert(len_fold(hist, next1 as int)
        == len_fold(hist, bnext as int) + hist[bnext].len);

    // everything below the new next has been received
    assert forall|i: u64| i < next1 implies #[trigger] hist.contains_key(i) by {
        if i < bnext {
        } else {
            assert(i == bnext);
        }
    }

    // the remaining buffered digests sit at or above the new next, and
    // stay distinct and faithful to the received map
    assert forall|k: int| 0 <= k < after.len()
        implies (#[trigger] after[k]).0 >= next1 by {
        if k < j {
            assert(before[k].0 != before[j].0);
        } else {
            assert(before[k + 1].0 != before[j].0);
        }
    }
    assert forall|k: int, l: int| 0 <= k < l < after.len()
        implies (#[trigger] after[k]).0 != (#[trigger] after[l]).0 by {
        if l < j {
        } else if k < j {
            assert(after[k] == before[k] && after[l] == before[l + 1]);
        } else {
            assert(after[k] == before[k + 1] && after[l] == before[l + 1]);
        }
    }

    // every received number at or above the new next is still buffered
    assert forall|i: u64| #[trigger] hist.contains_key(i) && i >= next1
        implies exists|k: int|
            0 <= k < after.len() && (#[trigger] after[k]).0 == i by {
        let k0 = choose|k0: int|
            0 <= k0 < before.len() && (#[trigger] before[k0]).0 == i;
        assert(k0 != j);
        if k0 < j {
            assert(after[k0].0 == i);
        } else {
            assert(after[k0 - 1].0 == i);
        }
    }
}

/// Find a buffered digest with the wanted sequence number.
fn find_pending(pending: &Vec<HashResultIdx>, want: u64) -> (r: Option<usize>)
    ensures
        match r {
            Some(j) => j < pending@.len() && pending@[j as int].0 == want,
            None => forall|k: int|
                0 <= k < pending@.len() ==> (#[trigger] pending@[k]).0 != want,
        },
{
    let mut j: usize = 0;
    while j < pending.len()
        invariant
            j <= pending@.len(),
            forall|k: int| 0 <= k < j ==> (#[trigger] pending@[k]).0 != want,
        decreases pending@.len() - j,
    {
        if pending[j].0 == want {
            return Some(j);
        }
        j = j + 1;
    }
    None
}

impl Reducer {
    /// Every digest received so far, keyed by sequence number.
    pub closed spec fn received(&self) -> Map<u64, HashResult> {
        self.hist@
    }

    /// The sequence number whose digest the fold is waiting for.
    pub closed spec fn next_expected(&self) -> u64 {
        self.next
    }

    /// True when every received digest has been folded: no digest is
    /// buffered, so the received sequence numbers are exactly
    /// 0..next_expected(), with no gap.
    pub closed spec fn complete(&self) -> bool {
        self.pending@.len() == 0
    }

    /// The running combined result over the folded digests.
    pub closed spec fn combined(&self) -> HashResult {
        self.total
    }

    /// The summed byte counts of every digest received so far.
    pub closed spec fn received_len(&self) -> int {
        self.total.len + pending_len_sum(self.pending@)
    }

    /// The internal invariant: see `inv_core`; at rest, no buffered
    /// digest sits at `next_expected`.
    pub closed spec fn wf(&self) -> bool {
        &&& inv_core(self.pending@, self.next, self.total, self.hist@)
        &&& forall|j: int|
            0 <= j < self.pending@.len() ==> (#[trigger] self.pending@[j]).0 != self.next
    }

    /// A fresh reducer: nothing received, waiting for sequence 0, with
    /// the empty combined result.
    pub fn new() -> (r: Reducer)
        ensures
            r.wf(),
            r.received() == Map::<u64, HashResult>::empty(),
            r.next_expected() == 0,
            r.complete(),
            r.received_len() == 0,
            r.combined().hash == 0,
            r.combined().len == 0,
    {
        Reducer {
            pending: Vec::new(),
            next: 0,
            total: HashResult { hash: 0, len: 0 },
            hist: Ghost(Map::empty()),
        }
    }

    /// Accept one per-block digest: record it, then fold every buffered
    /// digest whose turn has come, in sequence order.  The map of
    /// received digests gains exactly this entry, whatever the arrival
    /// order; pushing the digest the fold was waiting for, onto a
    /// reducer with nothing buffered, folds it at once.
    pub fn push(&mut self, item: HashResultIdx)
        requires
            old(self).wf(),
            !old(self).received().contains_key(item.0),
            item.0 < u64::MAX,
            old(self).received_len() + item.1.len <= u64::MAX,
        ensures
            final(self).wf(),
            final(self).received() == old(self).received().insert(item.0, item.1),
            final(self).received_len() == old(self).received_len() + item.1.len,
            final(self).next_expected() >= old(self).next_expected(),
            old(self).complete() && item.0 == old(self).next_expected() ==>
                final(self).complete()
                    && final(self).next_expected() == old(self).next_expected() + 1,
    {
        let ghost pre = *old(self);
        proof {
            // the new sequence number cannot be below `next`: everything
            // below `next` was already received
            assert(item.0 >= pre.next) by {
                if item.0 < pre.next {
                    assert(pre.hist@.contains_key(item.0));
                }
            }
            lemma_fold_insert_above(pre.hist@, item.0, item.1, pre.next as int);
            lemma_pending_len_sum_push(pre.pending@, item);
        }
        self.hist = Ghost(self.hist@.insert(item.0, item.1));
        self.pending.push(item);
        proof {
            let plen = pre.pending@.len() as int;
            assert(forall|k: int| 0 <= k < plen ==> self.pending@[k] == pre.pending@[k]);
            assert(self.pending@[plen] == item);
            assert forall|i: u64| #[trigger] self.hist@.contains_key(i) && i >= self.next
                implies exists|j2: int|
                    0 <= j2 < self.pending@.len() && (#[trigger] self.pending@[j2]).0 == i by {
                if i == item.0 {
                    assert(self.pending@[plen].0 == i);
                } else {
                    assert(pre.hist@.contains_key(i));
                    let j2 = choose|j2: int|
                        0 <= j2 < pre.pending@.len() && (#[trigger] pre.pending@[j2]).0 == i;
                    assert(self.pending@[j2].0 == i);
                }
            }
            assert(inv_core(self.pending@, self.next, self.total, self.hist@));
        }
        loop
            invariant
                inv_core(self.pending@, self.next, self.total, self.hist@),
                self.hist@ == pre.hist@.insert(item.0, item.1),
                self.next >= pre.next,
                self.total.len + pending_len_sum(self.pending@)
                    == pre.received_len() + item.1.len,
                pre.received_len() + item.1.len <= u64::MAX,
                pre.pending@.len() == 0 && item.0 == pre.next ==> {
                    ||| (self.next == pre.next && self.pending@.len() == 1
                            && self.pending@[0] == item)
                    ||| (self.next == pre.next + 1 && self.pending@.len() == 0)
                },
            ensures
                inv_core(self.pending@, self.next, self.total, self.hist@),
                self.hist@ == pre.hist@.insert(item.0, item.1),
                self.next >= pre.next,
                self.total.len + pending_len_sum(self.pending@)
                    == pre.received_len() + item.1.len,
                forall|k: int|
                    0 <= k < self.pending@.len()
                        ==> (#[trigger] self.pending@[k]).0 != self.next,
                pre.pending@.len() == 0 && item.0 == pre.next ==>
                    self.next == pre.next + 1 && self.pending@.len() == 0,
            decreases self.pending@.len(),
        {
            match find_pending(&self.pending, self.next) {
                None => {
                    break;
                },
                Some(j) => {
                    let ghost before = self.pending@;
                    let ghost bnext = self.next;
                    let it = self.pending.remove(j);
                    proof {
                        lemma_pending_len_sum_remove(before, j as int);
                        lemma_pending_len_sum_nonneg(self.pending@);
                        assert(forall|k: int|
                            0 <= k < j ==> #[trigger] self.pending@[k] == before[k]);
                        assert(forall|k: int|
                            j <= k < self.pending@.len()
                                ==> #[trigger] self.pending@[k] == before[k + 1]);
                    }
                    self.total.add(it.1);
                    self.next = self.next + 1;
                    proof {
                        lemma_drain_step(before, self.pending@, j as int, bnext,
                            self.total, self.hist@);
                    }
                }
            }
        }
    }

    /// Close the digest stream.  If every received digest has been
    /// folded, the combined result is handed out: its hash is the
    /// exclusive-or of the digests for 0..next_expected(), its length
    /// their summed byte counts, and the received sequence numbers are
    /// exactly that gapless range.  A digest still buffered means a gap
    /// in the sequence numbers: an internal defect, reported as None.
    pub fn finish(self) -> (r: Option<HashResult>)
        requires
            self.wf(),
        ensures
            self.complete() ==> r == Some(self.combined()),
            !self.complete() ==> r is None,
            self.complete() ==> {
                &&& self.combined().hash
                    == xor_fold(self.received(), self.next_expected() as int)
                &&& self.combined().len as int
                    == len_fold(self.received(), self.next_expected() as int)
                &&& forall|i: u64|
                    #[trigger] self.received().contains_key(i) <==> i < self.next_expected()
            },
    {
        if self.pending.len() == 0 {
            Some(self.total)
        } else {
            None
        }
    }
}

/// A well-formed reducer's running result is exactly the fold of the
/// received digests below `next_expected`; once complete, the received
/// sequence numbers are exactly the gapless range below it.
pub proof fn lemma_combined_is_fold(r: Reducer)
    requires
        r.wf(),
    ensures
        r.combined().hash == xor_fold(r.received(), r.next_expected() as int),
        r.combined().len as int == len_fold(r.received(), r.next_expected() as int),
        r.complete() ==> forall|i: u64|
            #[trigger] r.received().contains_key(i) <==> i < r.next_expected(),
{
}

/// The combined result does not depend on arrival order: a well-formed
/// reducer's whole observable state is a function of the map of received
/// digests alone, so two reducers that received the same digests — in
/// any two orders, under any two schedules — agree on everything.
pub proof fn lemma_result_order_independent(a: Reducer, b: Reducer)
    requires
        a.wf(),
        b.wf(),
        a.received() == b.received(),
    ensures
        a.next_expected() == b.next_expected(),
        a.combined() == b.combined(),
        a.complete() == b.complete(),
{
    lemma_next_determined(a, b);
    lemma_next_determined(b, a);
    if a.complete() {
        lemma_complete_determined(a, b);
    }
    if b.complete() {
        lemma_complete_determined(b, a);
    }
}

/// A reducer that received exactly a gapless run of digests starting at
/// sequence 0 has folded all of them: it is complete, waiting at the
/// run's end.
pub proof fn lemma_gapless_is_complete(r: Reducer, n: u64)
    requires
        r.wf(),
        forall|i: u64| #[trigger] r.received().contains_key(i) <==> i < n,
    ensures
        r.complete(),
        r.next_expected() == n,
{
    // nothing received at next_expected: wf keeps the waited-for number
    // out of both the folded range and the buffer
    assert(!r.received().contains_key(r.next)) by {
        if r.received().contains_key(r.next) {
            assert(exists|j: int|
                0 <= j < r.pending@.len() && (#[trigger] r.pending@[j]).0 == r.next);
        }
    }
    assert(r.next == n) by {
        if r.next < n {
            assert(r.received().contains_key(r.next));
        }
        if r.next > n {
            assert(r.received().contains_key(n));
        }
    }
    if r.pending@.len() > 0 {
        assert(r.received().contains_key(r.pending@[0].0));
        assert(false);
    }
}

/// Helper: `next_expected` is the least sequence number not received.
proof fn lemma_next_determined(a: Reducer, b: Reducer)
    requires
        a.wf(),
        b.wf(),
        a.received() == b.received(),
    ensures
        a.next_expected() >= b.next_expected(),
        a.next_expected() == b.next_expected() ==> a.combined() == b.combined(),
{
    if a.next < b.next {
        // then a.next was received, yet a is still waiting for it
        assert(b.hist@.contains_key(a.next));
        assert(exists|j: int|
            0 <= j < a.pending@.len() && (#[trigger] a.pending@[j]).0 == a.next);
        assert(false);
    }
    if a.next == b.next {
        assert(a.total.hash == b.total.hash);
        assert(a.total.len == b.total.len);
    }
}

/// Helper: completeness is determined by the received map as well.
proof fn lemma_complete_determined(a: Reducer, b: Reducer)
    requires
        a.wf(),
        b.wf(),
        a.received() == b.received(),
        a.next_expected() == b.next_expected(),
        a.complete(),
    ensures
        b.complete(),
{
    if b.pending@.len() > 0 {
        let k = b.pending@[0].0;
        assert(b.hist@.contains_key(k));
        assert(k >= b.next_expected() && k != b.next_expected());
        // but in a, every received number was folded, so k < next
        assert(exists|j: int|
            0 <= j < a.pending@.len() && (#[trigger] a.pending@[j]).0 == k);
        assert(false);
    }
}

} // verus!
