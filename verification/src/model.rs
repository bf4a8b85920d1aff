//! Mathematical model of the partition: segment sums over a sequence, the
//! cut-point constraint, the gross value of one partition, and what it means
//! for an integer to be the maximum gross value.

use vstd::prelude::*;

verus! {

/// Sum of the elements of `s` at positions `lo..hi` (half-open), as a
/// mathematical integer; `0` when the range is empty.
pub open spec fn segment_sum(s: Seq<i32>, lo: int, hi: int) -> int
    decreases hi - lo,
{
    if hi <= lo {
        0
    } else {
        segment_sum(s, lo, hi - 1) + s[hi - 1]
    }
}

/// The cut points `(i1, i2, i3)` pick a valid partition of a sequence of
/// length `n` exactly when `1 <= i1 < i2 <= i3 <= n`.
pub open spec fn valid_cuts(n: int, i1: int, i2: int, i3: int) -> bool {
    1 <= i1 < i2 <= i3 <= n
}

/// Gross value of the partition picked by `(i1, i2, i3)`: the cut points
/// split `s` into the four contiguous segments `s[0..i1-1]`, `s[i1-1..i2-1]`,
/// `s[i2-1..i3]` and `s[i3..n]`, and their sums are combined with alternating
/// signs.
pub open spec fn gross_value(s: Seq<i32>, i1: int, i2: int, i3: int) -> int {
    segment_sum(s, 0, i1 - 1) - segment_sum(s, i1 - 1, i2 - 1) + segment_sum(s, i2 - 1, i3)
        - segment_sum(s, i3, s.len() as int)
}

/// `m` is the gross value of some valid partition of `s`, and no valid
/// partition of `s` has a larger one.
pub open spec fn is_maximum_gross_value(s: Seq<i32>, m: int) -> bool {
    &&& exists|i1: int, i2: int, i3: int|
        #[trigger] valid_cuts(s.len() as int, i1, i2, i3) && gross_value(s, i1, i2, i3) == m
    &&& forall|i1: int, i2: int, i3: int|
        #[trigger] valid_cuts(s.len() as int, i1, i2, i3) ==> gross_value(s, i1, i2, i3) <= m
}

/// Splitting a summation range at `mid` splits the sum. With `lo == 0` this
/// is the prefix-table invariant: the sum of `s[mid..hi]` is the difference
/// of the prefix sums up to `hi` and up to `mid`.
pub proof fn lemma_segment_sum_split(s: Seq<i32>, lo: int, mid: int, hi: int)
    requires
        lo <= mid <= hi,
    ensures
        segment_sum(s, lo, hi) == segment_sum(s, lo, mid) + segment_sum(s, mid, hi),
    decreases hi - mid,
{
    if mid < hi {
        lemma_segment_sum_split(s, lo, mid, hi - 1);
    }
}

/// A segment sum of `k` elements of `i32` lies within `k` times the `i32`
/// magnitude bound.
pub proof fn lemma_segment_sum_bounds(s: Seq<i32>, lo: int, hi: int)
    requires
        lo <= hi,
    ensures
        (lo - hi) * 0x8000_0000 <= segment_sum(s, lo, hi) <= (hi - lo) * 0x8000_0000,
    decreases hi - lo,
{
    if lo < hi {
        lemma_segment_sum_bounds(s, lo, hi - 1);
    }
}

/// Every segment of an all-zero range sums to `0`.
pub proof fn lemma_segment_sum_all_zero(s: Seq<i32>, lo: int, hi: int)
    requires
        0 <= lo <= hi <= s.len(),
        forall|i: int| 0 <= i < s.len() ==> s[i] == 0,
    ensures
        segment_sum(s, lo, hi) == 0,
    decreases hi - lo,
{
    if lo < hi {
        lemma_segment_sum_all_zero(s, lo, hi - 1);
    }
}

/// The maximum gross value of a sequence is unique: any two integers that
/// both satisfy `is_maximum_gross_value` are equal.
pub proof fn lemma_maximum_unique(s: Seq<i32>, m1: int, m2: int)
    requires
        is_maximum_gross_value(s, m1),
        is_maximum_gross_value(s, m2),
    ensures
        m1 == m2,
{
    let n = s.len() as int;
    let (a1, b1, c1) = choose|i1: int, i2: int, i3: int|
        #[trigger] valid_cuts(n, i1, i2, i3) && gross_value(s, i1, i2, i3) == m1;
    let (a2, b2, c2) = choose|i1: int, i2: int, i3: int|
        #[trigger] valid_cuts(n, i1, i2, i3) && gross_value(s, i1, i2, i3) == m2;
    assert(valid_cuts(n, a1, b1, c1));
    assert(valid_cuts(n, a2, b2, c2));
    assert(m1 <= m2);
    assert(m2 <= m1);
}

/// The maximum dominates every valid partition: no choice of cut points
/// yields a gross value above it.
pub proof fn lemma_maximum_dominates(s: Seq<i32>, m: int, i1: int, i2: int, i3: int)
    requires
        is_maximum_gross_value(s, m),
        valid_cuts(s.len() as int, i1, i2, i3),
    ensures
        gross_value(s, i1, i2, i3) <= m,
{
    assert(valid_cuts(s.len() as int, i1, i2, i3));
}

/// For an all-zero sequence of length at least `2`, every valid partition has
/// gross value `0`, and so the maximum is exactly `0`.
pub proof fn lemma_all_zero_maximum(s: Seq<i32>)
    requires
        s.len() >= 2,
        forall|i: int| 0 <= i < s.len() ==> s[i] == 0,
    ensures
        is_maximum_gross_value(s, 0),
{
    let n = s.len() as int;
    assert forall|i1: int, i2: int, i3: int| #[trigger]
        valid_cuts(n, i1, i2, i3) implies gross_value(s, i1, i2, i3) == 0 by {
        lemma_segment_sum_all_zero(s, 0, i1 - 1);
        lemma_segment_sum_all_zero(s, i1 - 1, i2 - 1);
        lemma_segment_sum_all_zero(s, i2 - 1, i3);
        lemma_segment_sum_all_zero(s, i3, n);
    }
    assert(valid_cuts(n, 1, 2, 2));
}

} // verus!
