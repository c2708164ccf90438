//! Offsets of consecutive segments: where each of several variables starts
//! when their coordinates are laid out one after the other.

use vstd::prelude::*;

verus! {

/// Sum of the first `n` entries of `sizes`: the offset at which segment `n`
/// starts.
pub open spec fn offset(sizes: Seq<nat>, n: int) -> nat
    decreases n,
{
    if n <= 0 {
        0
    } else {
        offset(sizes, n - 1) + sizes[n - 1]
    }
}

/// Sum of all entries of `sizes`.
pub open spec fn total(sizes: Seq<nat>) -> nat {
    offset(sizes, sizes.len() as int)
}

/// The sizes held by a vector of machine integers.
pub open spec fn sizes_of(v: Seq<usize>) -> Seq<nat> {
    Seq::new(v.len(), |i: int| v[i] as nat)
}

/// Offsets grow with the index.
pub proof fn lemma_offset_monotonic(sizes: Seq<nat>, i: int, j: int)
    requires
        i <= j,
    ensures
        offset(sizes, i) <= offset(sizes, j),
    decreases j - i,
{
    if i < j {
        lemma_offset_monotonic(sizes, i, j - 1);
        if j > 0 {
        }
    }
}

/// A segment ends where the next one starts, and no segment reaches past the
/// total.
pub proof fn lemma_segment_within_total(sizes: Seq<nat>, i: int)
    requires
        0 <= i < sizes.len(),
    ensures
        offset(sizes, i) + sizes[i] == offset(sizes, i + 1),
        offset(sizes, i + 1) <= total(sizes),
{
    lemma_offset_monotonic(sizes, i + 1, sizes.len() as int);
}

/// Offsets depend only on the entries before the index.
pub proof fn lemma_offset_prefix(a: Seq<nat>, b: Seq<nat>, n: int)
    requires
        0 <= n <= a.len(),
        n <= b.len(),
        forall|k: int| 0 <= k < n ==> a[k] == b[k],
    ensures
        offset(a, n) == offset(b, n),
    decreases n,
{
    if n > 0 {
        lemma_offset_prefix(a, b, n - 1);
    }
}

/// Distinct segments do not overlap: a position belongs to at most one.
pub proof fn lemma_segments_disjoint(sizes: Seq<nat>, i: int, j: int)
    requires
        0 <= i < j < sizes.len(),
    ensures
        offset(sizes, i) + sizes[i] <= offset(sizes, j),
{
    lemma_offset_monotonic(sizes, i + 1, j);
}

/// Sum of `sizes`, or `None` where it does not fit a machine integer.
pub fn checked_total(sizes: &[usize]) -> (r: Option<usize>)
    ensures
        r matches Some(t) ==> t == total(sizes_of(sizes@)),
        r is None ==> total(sizes_of(sizes@)) > usize::MAX,
{
    let ghost s = sizes_of(sizes@);
    let mut sum: usize = 0;
    let mut i: usize = 0;
    while i < sizes.len()
        invariant
            i <= sizes@.len(),
            s == sizes_of(sizes@),
            sum == offset(s, i as int),
        decreases sizes@.len() - i,
    {
        match sum.checked_add(sizes[i]) {
            Some(next) => {
                sum = next;
            },
            None => {
                proof {
                    lemma_offset_monotonic(s, i + 1, s.len() as int);
                }
                return None;
            },
        }
        i += 1;
    }
    Some(sum)
}

/// Appending a segment leaves the earlier offsets alone and adds its size to
/// the total.
pub proof fn lemma_total_push(sizes: Seq<nat>, size: nat)
    ensures
        total(sizes.push(size)) == total(sizes) + size,
        forall|i: int| 0 <= i <= sizes.len() ==> offset(sizes.push(size), i) == offset(sizes, i),
{
    let extended = sizes.push(size);
    assert forall|i: int| 0 <= i <= sizes.len() implies offset(extended, i) == offset(
        sizes,
        i,
    ) by {
        lemma_offset_prefix(extended, sizes, i);
    }
    assert(extended[sizes.len() as int] == size);
}

/// Removing segment `i` takes its size off the total and off every later
/// offset.
pub proof fn lemma_total_remove(sizes: Seq<nat>, i: int)
    requires
        0 <= i < sizes.len(),
    ensures
        total(sizes.remove(i)) + sizes[i] == total(sizes),
{
    lemma_offset_remove(sizes, i, sizes.len() as int - 1);
}

/// Offsets of `sizes` with segment `i` removed, past the removed segment.
pub proof fn lemma_offset_remove(sizes: Seq<nat>, i: int, n: int)
    requires
        0 <= i < sizes.len(),
        i <= n <= sizes.len() - 1,
    ensures
        offset(sizes.remove(i), n) + sizes[i] == offset(sizes, n + 1),
    decreases n - i,
{
    let removed = sizes.remove(i);
    if n == i {
        lemma_offset_prefix(removed, sizes, i);
    } else {
        lemma_offset_remove(sizes, i, n - 1);
        assert(removed[n - 1] == sizes[n]);
    }
}

} // verus!
