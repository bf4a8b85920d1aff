use segment_partitioner::{get_maximum_gross_value, gross_value_of, GrossValueError};

/// Direct, prefix-free reference computation: sums each of the four segments
/// of `(i1, i2, i3)` element by element.
fn gross_by_direct_summation(arr: &[i32], i1: usize, i2: usize, i3: usize) -> i64 {
    let n: usize = arr.len();
    let seg = |lo: usize, hi: usize| -> i64 { arr[lo..hi].iter().map(|&x| x as i64).sum() };
    seg(0, i1 - 1) - seg(i1 - 1, i2 - 1) + seg(i2 - 1, i3) - seg(i3, n)
}

#[test]
fn result_is_idempotent() {
    let arr: [i32; 4] = [4, -2, 9, 1];
    let first = get_maximum_gross_value(&arr);
    let second = get_maximum_gross_value(&arr);
    assert_eq!(first, second);
    assert!(first.is_ok());
}

#[test]
fn order_of_input_matters() {
    let ascending: [i32; 3] = [1, 2, 3];
    let descending: [i32; 3] = [3, 2, 1];
    let r1 = get_maximum_gross_value(&ascending);
    let r2 = get_maximum_gross_value(&descending);
    assert_eq!(r1, Ok(4));
    assert_eq!(r2, Ok(2));
    assert_ne!(r1, r2);
}

#[test]
fn maximum_dominates_every_triple() {
    let arr: [i32; 5] = [2, -3, 5, -7, 11];
    let n: usize = arr.len();
    let max: i64 = match get_maximum_gross_value(&arr) {
        Ok(v) => v as i64,
        Err(e) => panic!("expected a maximum, got {:?}", e),
    };
    let mut seen: bool = false;
    for i1 in 1..=n {
        for i2 in (i1 + 1)..=n {
            for i3 in i2..=n {
                let g: i128 = gross_value_of(&arr, i1, i2, i3);
                assert!(g <= max as i128);
                if g == max as i128 {
                    seen = true;
                }
            }
        }
    }
    assert!(seen);
    // in particular the maximum is at least the first triple's gross value
    assert!(gross_value_of(&arr, 1, 2, n) <= max as i128);
}

#[test]
fn two_element_boundary() {
    // only one valid triple exists for n = 2: (1, 2, 2), whose segments are
    // [], [a], [b], [], so the gross value is -a + b
    let arr: [i32; 2] = [5, 7];
    assert_eq!(gross_value_of(&arr, 1, 2, 2), 2);
    assert_eq!(get_maximum_gross_value(&arr), Ok(2));
    let other: [i32; 2] = [3, -4];
    assert_eq!(get_maximum_gross_value(&other), Ok(-7));
}

#[test]
fn worked_example_five_elements() {
    let arr: [i32; 5] = [1, 2, 3, 4, 5];
    let n: usize = arr.len();
    let mut best: Option<i64> = None;
    for i1 in 1..=n {
        for i2 in (i1 + 1)..=n {
            for i3 in i2..=n {
                let g: i64 = gross_by_direct_summation(&arr, i1, i2, i3);
                assert_eq!(g as i128, gross_value_of(&arr, i1, i2, i3));
                best = Some(match best {
                    None => g,
                    Some(m) => {
                        if g > m {
                            g
                        } else {
                            m
                        }
                    }
                });
            }
        }
    }
    assert_eq!(best, Some(13));
    assert_eq!(get_maximum_gross_value(&arr), Ok(13));
}

#[test]
fn empty_boundary_segments() {
    let arr: [i32; 3] = [1, 2, 3];
    // i1 = 1: segment 1 is empty; i3 = n: segment 4 is empty and contributes 0
    assert_eq!(gross_value_of(&arr, 1, 2, 3), 0 - 1 + (2 + 3) - 0);
    // i2 = i3 = n: segment 3 is the single element before the last cut
    assert_eq!(gross_value_of(&arr, 2, 3, 3), 1 - 2 + 3 - 0);
    // all four segments at their smallest: [], [1], [2], [3]
    assert_eq!(gross_value_of(&arr, 1, 2, 2), 0 - 1 + 2 - 3);
}

#[test]
fn all_zero_input() {
    let arr: [i32; 7] = [0, 0, 0, 0, 0, 0, 0];
    assert_eq!(get_maximum_gross_value(&arr), Ok(0));
    let shortest: [i32; 2] = [0, 0];
    assert_eq!(get_maximum_gross_value(&shortest), Ok(0));
}

#[test]
fn all_negative_input() {
    // the best triple puts the large-magnitude negative sums into the
    // subtracted segments 2 and 4: here (1, 2, 2) with segments
    // [], [-1], [-2], [-3] scores 0 + 1 - 2 + 3 = 2
    let arr: [i32; 3] = [-1, -2, -3];
    assert_eq!(get_maximum_gross_value(&arr), Ok(2));
    assert_eq!(gross_value_of(&arr, 1, 2, 2), 2);
    // a triple that adds a negative segment instead scores lower
    assert_eq!(gross_value_of(&arr, 2, 3, 3), -1 + 2 - 3 - 0);
}

#[test]
fn too_short_input_is_rejected() {
    let empty: [i32; 0] = [];
    assert_eq!(
        get_maximum_gross_value(&empty),
        Err(GrossValueError::InvalidInput)
    );
    let single: [i32; 1] = [42];
    assert_eq!(
        get_maximum_gross_value(&single),
        Err(GrossValueError::InvalidInput)
    );
}

#[test]
fn overflow_is_reported() {
    // maximum 2 * i32::MAX + 1 lies above the i32 range
    let high: [i32; 3] = [i32::MAX, -1, i32::MAX];
    assert_eq!(
        get_maximum_gross_value(&high),
        Err(GrossValueError::ArithmeticOverflow)
    );
    assert_eq!(
        gross_value_of(&high, 2, 3, 3),
        2 * (i32::MAX as i128) + 1
    );
    // maximum i32::MIN - i32::MAX lies below the i32 range
    let low: [i32; 2] = [i32::MAX, i32::MIN];
    assert_eq!(
        get_maximum_gross_value(&low),
        Err(GrossValueError::ArithmeticOverflow)
    );
    // close to the edge but still representable
    let near: [i32; 2] = [i32::MAX, 1];
    assert_eq!(get_maximum_gross_value(&near), Ok(1 - i32::MAX));
}
