//! Brute-force similarity search: a data-parallel scored scan over every
//! candidate embedding, sorted by score and truncated to the top `k`.

use vstd::prelude::*;

use crate::vec_ops::{coords_bounded, dot, dot_spec, DIM_LIMIT};
use rayon::iter::IndexedParallelIterator;
use rayon::iter::IntoParallelRefIterator;
use rayon::iter::ParallelIterator;

verus! {

/// Scores are non-increasing along the sequence.
pub open spec fn sorted_desc(s: Seq<(usize, i64)>) -> bool {
    forall|a: int, b: int| 0 <= a < b < s.len() ==> (#[trigger] s[a]).1 >= (#[trigger] s[b]).1
}

/// No candidate index occurs twice.
pub open spec fn distinct_indices(s: Seq<(usize, i64)>) -> bool {
    forall|a: int, b: int|
        0 <= a < s.len() && 0 <= b < s.len() && a != b ==> (#[trigger] s[a]).0 != (
        #[trigger] s[b]).0
}

/// The two sequences hold the same pairs (ignoring order and multiplicity).
pub open spec fn same_elements(s1: Seq<(usize, i64)>, s2: Seq<(usize, i64)>) -> bool {
    forall|p: (usize, i64)|
        #![trigger s1.contains(p)]
        #![trigger s2.contains(p)]
        s1.contains(p) <==> s2.contains(p)
}

/// Candidate index `j` appears in the result sequence.
pub open spec fn in_result(s: Seq<(usize, i64)>, j: int) -> bool {
    exists|t: int| 0 <= t < s.len() && (#[trigger] s[t]).0 == j
}

/// Every candidate has the query's dimension and bounded components.
pub open spec fn candidates_ok(query: Seq<i64>, embeddings: Seq<Vec<i64>>) -> bool {
    forall|i: int|
        0 <= i < embeddings.len() ==> (#[trigger] embeddings[i])@.len() == query.len()
            && coords_bounded(embeddings[i]@)
}

/// Relies on rayon: `par_iter().enumerate().map(..).collect::<Vec<_>>()`
/// over a slice evaluates the closure once per element and collects the
/// results in the original index order (rayon's indexed `collect`, as its
/// `enumerate`/`collect` documentation shows). The closure only calls the
/// verified `dot`.
#[verifier::external_body]
fn parallel_scores(query: &Vec<i64>, embeddings: &Vec<Vec<i64>>) -> (r: Vec<(usize, i64)>)
    requires
        query@.len() <= DIM_LIMIT,
        coords_bounded(query@),
        candidates_ok(query@, embeddings@),
    ensures
        r@.len() == embeddings@.len(),
        forall|i: int|
            0 <= i < r@.len() ==> (#[trigger] r@[i]).0 == i && r@[i].1 == dot_spec(
                query@,
                embeddings@[i]@,
            ),
{
    embeddings.par_iter().enumerate().map(|(i, emb)| (i, dot(query, emb))).collect()
}

/// Swapping two positions preserves the element set.
proof fn lemma_swap_same_elements(s: Seq<(usize, i64)>, a: int, b: int)
    requires
        0 <= a < s.len(),
        0 <= b < s.len(),
    ensures
        same_elements(s.update(a, s[b]).update(b, s[a]), s),
{
    let t = s.update(a, s[b]).update(b, s[a]);
    assert forall|p: (usize, i64)| t.contains(p) implies s.contains(p) by {
        let i = choose|i: int| 0 <= i < t.len() && t[i] == p;
        if i == b {
            assert(s[a] == p);
        } else if i == a {
            assert(s[b] == p);
        } else {
            assert(s[i] == p);
        }
    }
    assert forall|p: (usize, i64)| s.contains(p) implies t.contains(p) by {
        let i = choose|i: int| 0 <= i < s.len() && s[i] == p;
        if i == a {
            assert(t[b] == p);
        } else if i == b {
            if a == b {
                assert(t[b] == p);
            } else {
                assert(t[a] == p);
            }
        } else {
            assert(t[i] == p);
        }
    }
}

/// Swapping two positions preserves index distinctness.
proof fn lemma_swap_distinct(s: Seq<(usize, i64)>, a: int, b: int)
    requires
        0 <= a < s.len(),
        0 <= b < s.len(),
        distinct_indices(s),
    ensures
        distinct_indices(s.update(a, s[b]).update(b, s[a])),
{
    let t = s.update(a, s[b]).update(b, s[a]);
    assert forall|x: int, y: int|
        0 <= x < t.len() && 0 <= y < t.len() && x != y implies (#[trigger] t[x]).0 != (
    #[trigger] t[y]).0 by {
        let sx = if x == b {
            a
        } else if x == a {
            b
        } else {
            x
        };
        let sy = if y == b {
            a
        } else if y == a {
            b
        } else {
            y
        };
        assert(t[x] == s[sx] && t[y] == s[sy]);
        if sx != sy {
            assert(s[sx].0 != s[sy].0);
        }
    }
}

/// Insertion sort of (index, score) pairs by descending score.
pub(crate) fn sort_pairs_desc(v: &mut Vec<(usize, i64)>)
    ensures
        final(v)@.len() == old(v)@.len(),
        sorted_desc(final(v)@),
        same_elements(final(v)@, old(v)@),
        distinct_indices(old(v)@) ==> distinct_indices(final(v)@),
{
    let ghost orig = v@;
    if v.len() <= 1 {
        return ;
    }
    let mut i: usize = 1;
    while i < v.len()
        invariant
            v@.len() == orig.len(),
            1 <= i <= v@.len(),
            same_elements(v@, orig),
            distinct_indices(orig) ==> distinct_indices(v@),
            sorted_desc(v@.subrange(0, i as int)),
        decreases v@.len() - i,
    {
        proof {
            assert forall|a: int, b: int| 0 <= a < b < i implies (#[trigger] v@[a]).1 >= (
            #[trigger] v@[b]).1 by {
                assert(v@.subrange(0, i as int)[a] == v@[a]);
                assert(v@.subrange(0, i as int)[b] == v@[b]);
            }
        }
        let mut j: usize = i;
        while j > 0 && v[j - 1].1 < v[j].1
            invariant
                v@.len() == orig.len(),
                0 <= j <= i < v@.len(),
                same_elements(v@, orig),
                distinct_indices(orig) ==> distinct_indices(v@),
                forall|a: int, b: int|
                    0 <= a < b <= i && b != j ==> (#[trigger] v@[a]).1 >= (#[trigger] v@[b]).1,
                forall|b: int| j < b <= i ==> v@[j as int].1 >= (#[trigger] v@[b]).1,
            decreases j,
        {
            let ghost before = v@;
            let t1: (usize, i64) = v[j - 1];
            let t2: (usize, i64) = v[j];
            v[j - 1] = t2;
            v[j] = t1;
            proof {
                assert(v@ == before.update(j - 1, before[j as int]).update(
                    j as int,
                    before[j - 1],
                ));
                lemma_swap_same_elements(before, j - 1, j as int);
                if distinct_indices(orig) {
                    lemma_swap_distinct(before, j - 1, j as int);
                }
            }
            j = j - 1;
        }
        proof {
            assert forall|a: int, b: int| 0 <= a < b <= i implies (#[trigger] v@[a]).1 >= (
            #[trigger] v@[b]).1 by {
                if b == j {
                    if a < j - 1 {
                        assert(v@[a].1 >= v@[j - 1].1);
                    }
                } else if a == j {
                    assert(v@[j as int].1 >= v@[b].1);
                }
            }
            assert(sorted_desc(v@.subrange(0, (i + 1) as int))) by {
                assert forall|a: int, b: int|
                    0 <= a < b < (i + 1) implies (#[trigger] v@.subrange(0, (i + 1) as int)[a]).1
                    >= (#[trigger] v@.subrange(0, (i + 1) as int)[b]).1 by {
                    assert(v@.subrange(0, (i + 1) as int)[a] == v@[a]);
                    assert(v@.subrange(0, (i + 1) as int)[b] == v@[b]);
                    assert(v@[a].1 >= v@[b].1);
                }
            }
        }
        i = i + 1;
    }
    proof {
        assert(v@.subrange(0, v@.len() as int) =~= v@);
    }
}

/// Top-`k` similarity search: scores every candidate with the dot product
/// against `query` (a stateless parallel map), sorts the (index, score)
/// pairs by descending score and truncates to `k`.
///
/// The result has exactly `min(k, N)` entries of distinct valid indices,
/// each carrying its exact dot-product score, in non-increasing score
/// order; every candidate left out scores no better than any entry kept.
pub fn search_similarity(query: &Vec<i64>, embeddings: &Vec<Vec<i64>>, k: usize) -> (r: Vec<
    (usize, i64),
>)
    requires
        query@.len() <= DIM_LIMIT,
        coords_bounded(query@),
        candidates_ok(query@, embeddings@),
    ensures
        r@.len() == vstd::math::min(k as int, embeddings@.len() as int),
        forall|t: int|
            0 <= t < r@.len() ==> (#[trigger] r@[t]).0 < embeddings@.len() && r@[t].1 == dot_spec(
                query@,
                embeddings@[r@[t].0 as int]@,
            ),
        sorted_desc(r@),
        distinct_indices(r@),
        forall|j: int|
            0 <= j < embeddings@.len() && !in_result(r@, j) && r@.len() > 0 ==> dot_spec(
                query@,
                embeddings@[j]@,
            ) <= r@[r@.len() - 1].1,
{
    let mut scores = parallel_scores(query, embeddings);
    let ghost full = scores@;
    proof {
        assert(distinct_indices(full));
    }
    sort_pairs_desc(&mut scores);
    let ghost sorted = scores@;
    scores.truncate(k);
    proof {
        let n = full.len() as int;
        let m = scores@.len() as int;
        if k as int <= n {
            assert(scores@ == sorted.subrange(0, k as int));
        } else {
            assert(scores@ == sorted);
        }
        assert forall|t: int| 0 <= t < m implies (#[trigger] scores@[t]).0 < n && scores@[t].1
            == dot_spec(query@, embeddings@[scores@[t].0 as int]@) by {
            assert(scores@[t] == sorted[t]);
            assert(sorted.contains(sorted[t]));
            assert(full.contains(sorted[t]));
            let s = choose|s: int| 0 <= s < full.len() && full[s] == sorted[t];
            assert(full[s].0 == s);
        }
        assert forall|j: int|
            0 <= j < n && !in_result(scores@, j) && m > 0 implies dot_spec(query@, embeddings@[j]@)
            <= scores@[m - 1].1 by {
            assert(full[j].0 == j && full[j].1 == dot_spec(query@, embeddings@[j]@));
            assert(full.contains(full[j]));
            assert(sorted.contains(full[j]));
            let t = choose|t: int| 0 <= t < sorted.len() && sorted[t] == full[j];
            if t < m {
                assert(scores@[t] == sorted[t]);
                assert(in_result(scores@, j));
            } else {
                assert(sorted[m - 1].1 >= sorted[t].1);
                assert(scores@[m - 1] == sorted[m - 1]);
            }
        }
    }
    scores
}

} // verus!
