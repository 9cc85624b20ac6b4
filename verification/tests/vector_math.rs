// Exact-value tests of the fixed-point vector primitives. One fixed-point
// unit is 1_000_000, so 1_500_000 stands for 1.5.

use animood::vec_ops::{clip, dot, ln1p_fixed, log_norm, norm, CLIP_VALUE, LN2, SCALE};

#[test]
fn dot_of_unit_vectors() {
    let a: Vec<i64> = vec![SCALE, 0];
    let b: Vec<i64> = vec![SCALE, 0];
    let c: Vec<i64> = vec![0, SCALE];
    // [1,0]·[1,0] = 1.0 in squared-scale units; [1,0]·[0,1] = 0.
    assert_eq!(dot(&a, &b), SCALE * SCALE);
    assert_eq!(dot(&a, &c), 0);
}

#[test]
fn dot_with_negative_components() {
    let a: Vec<i64> = vec![2 * SCALE, -SCALE];
    let b: Vec<i64> = vec![SCALE, 3 * SCALE];
    // 2*1 + (-1)*3 = -1.0 in squared-scale units.
    assert_eq!(dot(&a, &b), -SCALE * SCALE);
}

#[test]
fn norm_rescales_linearly() {
    // 5 in [0, 10] is exactly 0.5.
    assert_eq!(norm(5 * SCALE, 0, 10 * SCALE), SCALE / 2);
}

#[test]
fn norm_truncates_toward_zero() {
    // 1/3 of the range: 333_333 after truncation.
    assert_eq!(norm(SCALE, 0, 3 * SCALE), 333_333);
}

#[test]
fn norm_clamps_to_unit_interval() {
    assert_eq!(norm(20 * SCALE, 0, 10 * SCALE), SCALE);
    assert_eq!(norm(-5 * SCALE, 0, 10 * SCALE), 0);
}

#[test]
fn norm_degenerate_range_gives_zero() {
    assert_eq!(norm(7 * SCALE, 10 * SCALE, 10 * SCALE), 0);
    assert_eq!(norm(7 * SCALE, 12 * SCALE, 3 * SCALE), 0);
}

#[test]
fn ln1p_of_zero_is_zero() {
    assert_eq!(ln1p_fixed(0), 0);
}

#[test]
fn ln1p_exact_at_powers_of_two() {
    // ln(2) and ln(4) in fixed point: the approximation is exact there.
    assert_eq!(ln1p_fixed(1), LN2);
    assert_eq!(ln1p_fixed(3), 2 * LN2);
    assert_eq!(ln1p_fixed(7), 3 * LN2);
}

#[test]
fn ln1p_interpolates_between_powers() {
    // 2 + 1 = 3 lies halfway between 2 and 4: ln2 + (3-2)/2 * ln2.
    assert_eq!(ln1p_fixed(2), LN2 + LN2 / 2);
}

#[test]
fn log_norm_of_zero_count_matches_zero_log_value() {
    // ln(0 + 1) = 0, so the count 0 normalizes like the raw value 0.
    let min_log: i64 = -1 * SCALE;
    let max_log: i64 = 3 * SCALE;
    assert_eq!(log_norm(0, min_log, max_log), norm(0, min_log, max_log));
}

#[test]
fn log_norm_monotone_sample() {
    let lo = log_norm(10, 0, 20 * SCALE);
    let hi = log_norm(10_000, 0, 20 * SCALE);
    assert!(lo < hi);
    assert!(hi <= SCALE);
}

#[test]
fn clip_bounds_every_component() {
    let mut v: Vec<i64> = vec![15 * SCALE, -12 * SCALE, 3 * SCALE, -CLIP_VALUE];
    clip(&mut v, CLIP_VALUE);
    assert_eq!(v, vec![CLIP_VALUE, -CLIP_VALUE, 3 * SCALE, -CLIP_VALUE]);
    for x in &v {
        assert!(-CLIP_VALUE <= *x && *x <= CLIP_VALUE);
    }
}

#[test]
fn clip_with_custom_bound() {
    let mut v: Vec<i64> = vec![2 * SCALE, -2 * SCALE];
    clip(&mut v, SCALE);
    assert_eq!(v, vec![SCALE, -SCALE]);
}
