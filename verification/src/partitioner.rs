//! The partitioner: exhaustive enumeration of all valid cut-point triples
//! over a prefix-sum table, returning the exact maximum gross value.

use vstd::prelude::*;

use crate::model::{
    gross_value, is_maximum_gross_value, lemma_maximum_unique, lemma_segment_sum_bounds,
    lemma_segment_sum_split, segment_sum, valid_cuts,
};

verus! {

/// Why no maximum gross value could be returned.
#[derive(Clone, Copy, Debug, PartialEq, Eq, Structural)]
pub enum GrossValueError {
    /// The input has fewer than two elements, so no valid cut-point triple
    /// exists.
    InvalidInput,
    /// The maximum gross value exists but lies outside the `i32` range.
    ArithmeticOverflow,
}

/// `m` lies within the `i32` range.
pub open spec fn fits_i32(m: int) -> bool {
    i32::MIN <= m <= i32::MAX
}

/// The full contract of the computation: which result is owed for which
/// input.
pub open spec fn gross_result_spec(s: Seq<i32>, r: Result<i32, GrossValueError>) -> bool {
    match r {
        Ok(v) => s.len() >= 2 && is_maximum_gross_value(s, v as int),
        Err(GrossValueError::InvalidInput) => s.len() < 2,
        Err(GrossValueError::ArithmeticOverflow) => s.len() >= 2 && exists|m: int|
            #[trigger] is_maximum_gross_value(s, m) && !fits_i32(m),
    }
}

/// `(a, b, c)` comes strictly before `(p1, p2, p3)` in the lexicographic
/// order in which the triples are enumerated.
spec fn lex_before(a: int, b: int, c: int, p1: int, p2: int, p3: int) -> bool {
    ||| a < p1
    ||| (a == p1 && b < p2)
    ||| (a == p1 && b == p2 && c < p3)
}

/// `best` is the running maximum over exactly the valid triples enumerated
/// before position `(p1, p2, p3)`: `None` while no such triple exists, and
/// otherwise the largest gross value among them.
spec fn is_partial_max(s: Seq<i32>, p1: int, p2: int, p3: int, best: Option<i128>) -> bool {
    match best {
        None => forall|a: int, b: int, c: int|
            #[trigger] valid_cuts(s.len() as int, a, b, c) ==> !lex_before(a, b, c, p1, p2, p3),
        Some(m) => {
            &&& exists|a: int, b: int, c: int|
                #[trigger] valid_cuts(s.len() as int, a, b, c) && lex_before(a, b, c, p1, p2, p3)
                    && gross_value(s, a, b, c) == m as int
            &&& forall|a: int, b: int, c: int|
                #[trigger] valid_cuts(s.len() as int, a, b, c) && lex_before(a, b, c, p1, p2, p3)
                    ==> gross_value(s, a, b, c) <= m as int
        },
    }
}

/// A running maximum carries over to a new position that cuts the enumeration
/// order at the same place.
proof fn lemma_partial_max_shift(
    s: Seq<i32>,
    p1: int,
    p2: int,
    p3: int,
    q1: int,
    q2: int,
    q3: int,
    best: Option<i128>,
)
    requires
        is_partial_max(s, p1, p2, p3, best),
        forall|a: int, b: int, c: int| #[trigger]
            valid_cuts(s.len() as int, a, b, c) ==> lex_before(a, b, c, p1, p2, p3)
                == lex_before(a, b, c, q1, q2, q3),
    ensures
        is_partial_max(s, q1, q2, q3, best),
{
    let n = s.len() as int;
    match best {
        None => {
            assert forall|a: int, b: int, c: int| #[trigger]
                valid_cuts(n, a, b, c) implies !lex_before(a, b, c, q1, q2, q3) by {}
        },
        Some(m) => {
            let (wa, wb, wc) = choose|a: int, b: int, c: int|
                #[trigger] valid_cuts(n, a, b, c) && lex_before(a, b, c, p1, p2, p3)
                    && gross_value(s, a, b, c) == m as int;
            assert(valid_cuts(n, wa, wb, wc) && lex_before(wa, wb, wc, q1, q2, q3)
                && gross_value(s, wa, wb, wc) == m as int);
            assert forall|a: int, b: int, c: int| #[trigger]
                valid_cuts(n, a, b, c) && lex_before(a, b, c, q1, q2, q3)
                implies gross_value(s, a, b, c) <= m as int by {}
        },
    }
}

/// The maximum gross value over all valid cut-point triples of `arr`.
///
/// The gross value of a triple `(i1, i2, i3)` with `1 <= i1 < i2 <= i3 <= n`
/// is the alternating combination `sum1 - sum2 + sum3 - sum4` of the sums of
/// the four contiguous segments the triple cuts `arr` into. All intermediate
/// arithmetic is widened to `i128`, which cannot overflow for any slice of
/// `i32` values, so the result is exact:
/// - `Ok(v)` when at least one triple exists and the maximum fits in `i32`,
/// - `Err(GrossValueError::InvalidInput)` when `arr` has fewer than two
///   elements and no triple exists,
/// - `Err(GrossValueError::ArithmeticOverflow)` when the maximum exists but
///   lies outside the `i32` range.
pub fn get_maximum_gross_value(arr: &[i32]) -> (r: Result<i32, GrossValueError>)
    requires
        arr@.len() < usize::MAX,
    ensures
        gross_result_spec(arr@, r),
        (r matches Err(GrossValueError::InvalidInput)) <==> arr@.len() < 2,
        (r is Ok) <==> (arr@.len() >= 2 && exists|m: int|
            #[trigger] is_maximum_gross_value(arr@, m) && fits_i32(m)),
{
    let ghost s = arr@;
    let n: usize = arr.len();
    if n < 2 {
        return Err(GrossValueError::InvalidInput);
    }
    let mut prefix: Vec<i128> = Vec::new();
    prefix.push(0);
    let mut i: usize = 0;
    while i < n
        invariant
            n == s.len(),
            s == arr@,
            i <= n,
            prefix@.len() == i as int + 1,
            forall|k: int| 0 <= k <= i as int ==> #[trigger] prefix@[k] as int == segment_sum(s, 0, k),
        decreases n - i,
    {
        proof {
            lemma_segment_sum_bounds(s, 0, i as int);
        }
        let next: i128 = prefix[i] + (arr[i] as i128);
        prefix.push(next);
        i = i + 1;
    }
    let mut best: Option<i128> = None;
    proof {
        assert forall|a: int, b: int, c: int| #[trigger]
            valid_cuts(s.len() as int, a, b, c) implies !lex_before(a, b, c, 1, 2, 2) by {}
    }
    let mut i1: usize = 1;
    while i1 <= n
        invariant
            n == s.len(),
            s == arr@,
            2 <= n < usize::MAX,
            1 <= i1 <= n + 1,
            prefix@.len() == n as int + 1,
            forall|k: int| 0 <= k <= n as int ==> #[trigger] prefix@[k] as int == segment_sum(s, 0, k),
            is_partial_max(s, i1 as int, i1 as int + 1, i1 as int + 1, best),
        decreases n + 1 - i1,
    {
        let mut i2: usize = i1 + 1;
        while i2 <= n
            invariant
                n == s.len(),
                s == arr@,
                2 <= n < usize::MAX,
                1 <= i1 <= n,
                i1 + 1 <= i2 <= n + 1,
                prefix@.len() == n as int + 1,
                forall|k: int| 0 <= k <= n as int ==> #[trigger] prefix@[k] as int == segment_sum(
                    s,
                    0,
                    k,
                ),
                is_partial_max(s, i1 as int, i2 as int, i2 as int, best),
            decreases n + 1 - i2,
        {
            let mut i3: usize = i2;
            while i3 <= n
                invariant
                    n == s.len(),
                    s == arr@,
                    2 <= n < usize::MAX,
                    1 <= i1 <= n,
                    i1 + 1 <= i2 <= n,
                    i2 <= i3 <= n + 1,
                    prefix@.len() == n as int + 1,
                    forall|k: int| 0 <= k <= n as int ==> #[trigger] prefix@[k] as int
                        == segment_sum(s, 0, k),
                    is_partial_max(s, i1 as int, i2 as int, i3 as int, best),
                decreases n + 1 - i3,
            {
                proof {
                    lemma_segment_sum_bounds(s, 0, i1 as int - 1);
                    lemma_segment_sum_bounds(s, 0, i2 as int - 1);
                    lemma_segment_sum_bounds(s, 0, i3 as int);
                    lemma_segment_sum_bounds(s, 0, n as int);
                }
                let sum_1_i1: i128 = prefix[i1 - 1];
                let sum_i1_i2: i128 = prefix[i2 - 1] - prefix[i1 - 1];
                let sum_i2_i3: i128 = prefix[i3] - prefix[i2 - 1];
                let sum_i3_n: i128 = prefix[n] - prefix[i3];
                let gross: i128 = sum_1_i1 - sum_i1_i2 + sum_i2_i3 - sum_i3_n;
                proof {
                    lemma_segment_sum_split(s, 0, i1 as int - 1, i2 as int - 1);
                    lemma_segment_sum_split(s, 0, i2 as int - 1, i3 as int);
                    lemma_segment_sum_split(s, 0, i3 as int, n as int);
                    assert(gross as int == gross_value(s, i1 as int, i2 as int, i3 as int));
                    assert(valid_cuts(s.len() as int, i1 as int, i2 as int, i3 as int));
                    assert(lex_before(i1 as int, i2 as int, i3 as int, i1 as int, i2 as int,
                        i3 as int + 1));
                }
                let update: bool = match best {
                    None => true,
                    Some(m) => gross > m,
                };
                if update {
                    best = Some(gross);
                }
                proof {
                    assert(is_partial_max(s, i1 as int, i2 as int, i3 as int + 1, best));
                }
                i3 = i3 + 1;
            }
            proof {
                assert forall|a: int, b: int, c: int| #[trigger]
                    valid_cuts(s.len() as int, a, b, c) implies lex_before(a, b, c, i1 as int,
                    i2 as int, n as int + 1) == lex_before(a, b, c, i1 as int, i2 as int + 1,
                    i2 as int + 1) by {}
                lemma_partial_max_shift(s, i1 as int, i2 as int, n as int + 1, i1 as int,
                    i2 as int + 1, i2 as int + 1, best);
            }
            i2 = i2 + 1;
        }
        proof {
            assert forall|a: int, b: int, c: int| #[trigger]
                valid_cuts(s.len() as int, a, b, c) implies lex_before(a, b, c, i1 as int,
                n as int + 1, n as int + 1) == lex_before(a, b, c, i1 as int + 1, i1 as int + 2,
                i1 as int + 2) by {}
            lemma_partial_max_shift(s, i1 as int, n as int + 1, n as int + 1, i1 as int + 1,
                i1 as int + 2, i1 as int + 2, best);
        }
        i1 = i1 + 1;
    }
    proof {
        assert forall|a: int, b: int, c: int| #[trigger]
            valid_cuts(s.len() as int, a, b, c) implies lex_before(a, b, c, n as int + 1,
            n as int + 2, n as int + 2) by {}
    }
    match best {
        None => {
            proof {
                assert(valid_cuts(s.len() as int, 1, 2, 2));
                assert(false);
            }
            Err(GrossValueError::InvalidInput)
        },
        Some(m) => {
            proof {
                assert(is_maximum_gross_value(s, m as int));
            }
            if i32::MIN as i128 <= m && m <= i32::MAX as i128 {
                proof {
                    assert(is_maximum_gross_value(s, m as int) && fits_i32(m as int));
                }
                Ok(m as i32)
            } else {
                proof {
                    assert(is_maximum_gross_value(s, m as int) && !fits_i32(m as int));
                    if exists|mm: int| #[trigger] is_maximum_gross_value(s, mm) && fits_i32(mm) {
                        let mm = choose|mm: int|
                            #[trigger] is_maximum_gross_value(s, mm) && fits_i32(mm);
                        lemma_maximum_unique(s, mm, m as int);
                        assert(false);
                    }
                }
                Err(GrossValueError::ArithmeticOverflow)
            }
        },
    }
}

/// Sum of `arr[lo..hi]`, widened to `i128`.
fn sum_between(arr: &[i32], lo: usize, hi: usize) -> (t: i128)
    requires
        lo <= hi <= arr@.len(),
    ensures
        t as int == segment_sum(arr@, lo as int, hi as int),
{
    let mut t: i128 = 0;
    let mut j: usize = lo;
    while j < hi
        invariant
            lo <= j <= hi <= arr@.len(),
            t as int == segment_sum(arr@, lo as int, j as int),
        decreases hi - j,
    {
        proof {
            lemma_segment_sum_bounds(arr@, lo as int, j as int);
        }
        t = t + (arr[j] as i128);
        j = j + 1;
    }
    t
}

/// The gross value of the one partition picked by the cut points
/// `(i1, i2, i3)`, computed by direct summation of the four segments.
pub fn gross_value_of(arr: &[i32], i1: usize, i2: usize, i3: usize) -> (g: i128)
    requires
        valid_cuts(arr@.len() as int, i1 as int, i2 as int, i3 as int),
    ensures
        g as int == gross_value(arr@, i1 as int, i2 as int, i3 as int),
{
    let n: usize = arr.len();
    let sum_1_i1: i128 = sum_between(arr, 0, i1 - 1);
    let sum_i1_i2: i128 = sum_between(arr, i1 - 1, i2 - 1);
    let sum_i2_i3: i128 = sum_between(arr, i2 - 1, i3);
    let sum_i3_n: i128 = sum_between(arr, i3, n);
    proof {
        lemma_segment_sum_bounds(arr@, 0, i1 as int - 1);
        lemma_segment_sum_bounds(arr@, i1 as int - 1, i2 as int - 1);
        lemma_segment_sum_bounds(arr@, i2 as int - 1, i3 as int);
        lemma_segment_sum_bounds(arr@, i3 as int, n as int);
    }
    sum_1_i1 - sum_i1_i2 + sum_i2_i3 - sum_i3_n
}

/// Any two results that both meet the contract for the same input are equal:
/// the computation is a pure function of its input, and computing it twice
/// yields the same result.
pub proof fn lemma_result_deterministic(
    s: Seq<i32>,
    r1: Result<i32, GrossValueError>,
    r2: Result<i32, GrossValueError>,
)
    requires
        gross_result_spec(s, r1),
        gross_result_spec(s, r2),
    ensures
        r1 == r2,
{
    match (r1, r2) {
        (Ok(v1), Ok(v2)) => {
            lemma_maximum_unique(s, v1 as int, v2 as int);
        },
        (Ok(v1), Err(GrossValueError::ArithmeticOverflow)) => {
            let m = choose|m: int| #[trigger] is_maximum_gross_value(s, m) && !fits_i32(m);
            lemma_maximum_unique(s, v1 as int, m);
        },
        (Err(GrossValueError::ArithmeticOverflow), Ok(v2)) => {
            let m = choose|m: int| #[trigger] is_maximum_gross_value(s, m) && !fits_i32(m);
            lemma_maximum_unique(s, v2 as int, m);
        },
        _ => {},
    }
}

} // verus!
