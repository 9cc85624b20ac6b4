// Taste-profile construction: weighted centroids and the four-way taste
// query policy, on concrete fixed-point values.

use animood::vec_ops::{build_taste_query, weighted_centroid, CLIP_VALUE, SCALE};

#[test]
fn centroid_of_no_pairs_is_none() {
    let pairs: Vec<(Vec<i64>, i64)> = Vec::new();
    assert!(weighted_centroid(&pairs).is_none());
}

#[test]
fn centroid_of_all_zero_weights_is_none() {
    let pairs: Vec<(Vec<i64>, i64)> = vec![
        (vec![SCALE, 0], 0),
        (vec![0, SCALE], 0),
    ];
    assert!(weighted_centroid(&pairs).is_none());
}

#[test]
fn centroid_is_the_weighted_mean() {
    // mean of [1,0] (weight 1) and [0,1] (weight 3) = [0.25, 0.75].
    let pairs: Vec<(Vec<i64>, i64)> = vec![
        (vec![SCALE, 0], SCALE),
        (vec![0, SCALE], 3 * SCALE),
    ];
    let c = weighted_centroid(&pairs).unwrap();
    assert_eq!(c, vec![SCALE / 4, 3 * SCALE / 4]);
}

#[test]
fn centroid_uses_absolute_weights() {
    // A negative weight contributes by its magnitude.
    let pairs: Vec<(Vec<i64>, i64)> = vec![
        (vec![SCALE, 0], -SCALE),
        (vec![0, SCALE], 3 * SCALE),
    ];
    let c = weighted_centroid(&pairs).unwrap();
    assert_eq!(c, vec![SCALE / 4, 3 * SCALE / 4]);
}

#[test]
fn centroid_invariant_under_weight_scaling() {
    // Scaling every weight by 7 leaves the weighted mean unchanged.
    let pairs: Vec<(Vec<i64>, i64)> = vec![
        (vec![SCALE, 0], SCALE),
        (vec![0, SCALE], 3 * SCALE),
    ];
    let scaled: Vec<(Vec<i64>, i64)> = vec![
        (vec![SCALE, 0], 7 * SCALE),
        (vec![0, SCALE], 21 * SCALE),
    ];
    assert_eq!(weighted_centroid(&pairs), weighted_centroid(&scaled));
}

#[test]
fn centroid_skips_pairs_of_wrong_dimension() {
    // The three-component pair is defensively ignored.
    let pairs: Vec<(Vec<i64>, i64)> = vec![
        (vec![SCALE, 0], SCALE),
        (vec![SCALE, SCALE, SCALE], 100 * SCALE),
        (vec![0, SCALE], 3 * SCALE),
    ];
    let c = weighted_centroid(&pairs).unwrap();
    assert_eq!(c, vec![SCALE / 4, 3 * SCALE / 4]);
}

#[test]
fn centroid_is_clipped() {
    let pairs: Vec<(Vec<i64>, i64)> = vec![(vec![15 * SCALE, -15 * SCALE], SCALE)];
    let c = weighted_centroid(&pairs).unwrap();
    assert_eq!(c, vec![CLIP_VALUE, -CLIP_VALUE]);
}

#[test]
fn taste_query_of_nothing_is_none() {
    assert!(build_taste_query(None, None).is_none());
}

#[test]
fn taste_query_of_positive_alone_is_clipped_positive() {
    let v: Vec<i64> = vec![12 * SCALE, -3 * SCALE];
    let q = build_taste_query(Some(v), None).unwrap();
    assert_eq!(q, vec![CLIP_VALUE, -3 * SCALE]);
}

#[test]
fn taste_query_of_negative_alone_is_negated() {
    let v: Vec<i64> = vec![2 * SCALE, -3 * SCALE];
    let q = build_taste_query(None, Some(v)).unwrap();
    assert_eq!(q, vec![-2 * SCALE, 3 * SCALE]);
}

#[test]
fn taste_query_subtracts_negative_from_positive() {
    // clip([1,0] - [0,1], 10) = [1,-1].
    let pos: Vec<i64> = vec![SCALE, 0];
    let neg: Vec<i64> = vec![0, SCALE];
    let q = build_taste_query(Some(pos), Some(neg)).unwrap();
    assert_eq!(q, vec![SCALE, -SCALE]);
}

#[test]
fn taste_query_dimension_mismatch_trusts_positive() {
    let pos: Vec<i64> = vec![12 * SCALE, 0];
    let neg: Vec<i64> = vec![SCALE, SCALE, SCALE];
    let q = build_taste_query(Some(pos), Some(neg)).unwrap();
    assert_eq!(q, vec![CLIP_VALUE, 0]);
}

#[test]
fn centroids_then_taste_query_end_to_end() {
    // One positive pair ([1,0], 2.0) and one negative pair ([0,1], 1.0)
    // produce the taste query [1, -1].
    let pos_pairs: Vec<(Vec<i64>, i64)> = vec![(vec![SCALE, 0], 2 * SCALE)];
    let neg_pairs: Vec<(Vec<i64>, i64)> = vec![(vec![0, SCALE], SCALE)];
    let pos = weighted_centroid(&pos_pairs);
    let neg = weighted_centroid(&neg_pairs);
    assert_eq!(pos.as_ref().unwrap(), &vec![SCALE, 0]);
    assert_eq!(neg.as_ref().unwrap(), &vec![0, SCALE]);
    let q = build_taste_query(pos, neg).unwrap();
    assert_eq!(q, vec![SCALE, -SCALE]);
}
