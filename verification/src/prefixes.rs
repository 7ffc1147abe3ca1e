//! Successively longer prefixes of a sequence, smallest first.
//!
//! [`iter_prefixes`] returns a cursor over all non-empty prefixes of a
//! slice. The cursor can be consumed from the front (shortest prefix
//! first, via [`PrefixIter::next`]) or from the back (longest first, via
//! [`PrefixIter::next_back`]), or from both ends at once; it never yields
//! an empty prefix and never one longer than the slice.

use vstd::prelude::*;
use vstd::slice::slice_subrange;

verus! {

/// The prefix of `s` of length `k`.
pub open spec fn prefix_at<T>(s: Seq<T>, k: int) -> Seq<T>
    recommends
        0 <= k <= s.len(),
{
    s.subrange(0, k)
}

/// A cursor over the non-empty prefixes of a slice, by length.
///
/// The prefixes still to be yielded are exactly those of lengths
/// `front + 1 ..= back`; the cursor is exhausted when `front == back`.
pub struct PrefixIter {
    /// Prefixes of this length and shorter have been yielded from the front.
    pub front: usize,
    /// Prefixes longer than this have been yielded from the back.
    pub back: usize,
}

impl PrefixIter {
    /// The cursor fits a slice of length `n`.
    pub open spec fn wf(&self, n: nat) -> bool {
        self.front <= self.back <= n
    }

    /// How many prefixes are still to be yielded.
    pub open spec fn remaining(&self) -> int {
        self.back - self.front
    }

    /// Yield the shortest prefix not yet yielded, or nothing when the
    /// cursor is exhausted.
    pub fn next<'a, T>(&mut self, slice: &'a [T]) -> (r: Option<&'a [T]>)
        requires
            old(self).wf(slice@.len()),
        ensures
            final(self).wf(slice@.len()),
            match r {
                Some(p) => {
                    &&& old(self).remaining() > 0
                    &&& p@ == prefix_at(slice@, old(self).front + 1)
                    &&& final(self).front == old(self).front + 1
                    &&& final(self).back == old(self).back
                },
                None => old(self).remaining() == 0 && *final(self) == *old(self),
            },
    {
        if self.front < self.back {
            let p = slice_subrange(slice, 0, self.front + 1);
            self.front = self.front + 1;
            Some(p)
        } else {
            None
        }
    }

    /// Yield the longest prefix not yet yielded, or nothing when the
    /// cursor is exhausted.
    pub fn next_back<'a, T>(&mut self, slice: &'a [T]) -> (r: Option<&'a [T]>)
        requires
            old(self).wf(slice@.len()),
        ensures
            final(self).wf(slice@.len()),
            match r {
                Some(p) => {
                    &&& old(self).remaining() > 0
                    &&& p@ == prefix_at(slice@, old(self).back as int)
                    &&& final(self).back == old(self).back - 1
                    &&& final(self).front == old(self).front
                },
                None => old(self).remaining() == 0 && *final(self) == *old(self),
            },
    {
        if self.front < self.back {
            let p = slice_subrange(slice, 0, self.back);
            self.back = self.back - 1;
            Some(p)
        } else {
            None
        }
    }
}

/// A cursor over all non-empty prefixes of `slice`, smallest first.
///
/// A fresh cursor has exactly `slice.len()` prefixes to yield; consuming
/// it from the front yields them in lengths `1, 2, …, slice.len()`.
pub fn iter_prefixes<T>(slice: &[T]) -> (it: PrefixIter)
    ensures
        it.front == 0,
        it.back == slice@.len(),
        it.wf(slice@.len()),
        it.remaining() == slice@.len(),
{
    PrefixIter { front: 0, back: slice.len() }
}

/// Law of the prefix sequence: over a sequence of length `n` it holds
/// exactly `n` prefixes — the `k`-th one (counting from one) is the prefix
/// of length `k`, so none is empty, none is longer than the sequence, and
/// the last equals the whole sequence. For `n == 0` there are none.
pub proof fn lemma_prefix_sequence<T>(s: Seq<T>)
    ensures
        forall|k: int| 1 <= k <= s.len() ==> (#[trigger] prefix_at(s, k)).len() == k,
        prefix_at(s, s.len() as int) == s,
{
    assert(prefix_at(s, s.len() as int) =~= s);
}

} // verus!
