//! Ranking engine: blends the raw similarity score of each recalled
//! candidate with normalized popularity features into one final score,
//! sorts, filters out already-seen items and truncates to `k`.

use std::collections::HashSet;
use vstd::prelude::*;

use crate::search::{candidates_ok, search_similarity, sort_pairs_desc};
use crate::types::{AnimeEmbeddings, AnimeResult, RecError};
use crate::vec_ops::{
    abs_val, build_taste_query, centroid_opt, coords_bounded, div_trunc, dot_spec, ln1p_fixed,
    ln1p_spec, min_max_norm_spec, norm, opt_view, pairs_bounded, taste_query_spec,
    weighted_centroid, CLIP_VALUE, COORD_LIMIT, SCALE,
};

verus! {

broadcast use vstd::std_specs::hash::group_hash_axioms;

/// The four blend weights and the three normalization-bound pairs of the
/// final-score computation, all fixed-point. The bounds are
/// dataset-calibrated constants, computed offline, never recomputed at
/// query time.
pub struct RankConfig {
    pub w_sim: i64,
    pub w_score: i64,
    pub w_members: i64,
    pub w_favorites: i64,
    pub score_min: i64,
    pub score_max: i64,
    pub members_log_min: i64,
    pub members_log_max: i64,
    pub favorites_log_min: i64,
    pub favorites_log_max: i64,
}

impl RankConfig {
    /// Every blend weight lies in `[0, SCALE]` (the real interval `[0, 1]`).
    pub open spec fn valid(self) -> bool {
        &&& 0 <= self.w_sim <= SCALE
        &&& 0 <= self.w_score <= SCALE
        &&& 0 <= self.w_members <= SCALE
        &&& 0 <= self.w_favorites <= SCALE
    }

    /// The free-text-query weighting preset: `0.6 / 0.20 / 0.10 / 0.10`.
    pub fn free_text(
        score_min: i64,
        score_max: i64,
        members_log_min: i64,
        members_log_max: i64,
        favorites_log_min: i64,
        favorites_log_max: i64,
    ) -> (r: RankConfig)
        ensures
            r.valid(),
            r.w_sim == 600_000 && r.w_score == 200_000 && r.w_members == 100_000
                && r.w_favorites == 100_000,
            r.score_min == score_min && r.score_max == score_max,
            r.members_log_min == members_log_min && r.members_log_max == members_log_max,
            r.favorites_log_min == favorites_log_min && r.favorites_log_max == favorites_log_max,
    {
        RankConfig {
            w_sim: 600_000,
            w_score: 200_000,
            w_members: 100_000,
            w_favorites: 100_000,
            score_min,
            score_max,
            members_log_min,
            members_log_max,
            favorites_log_min,
            favorites_log_max,
        }
    }

    /// The taste-profile weighting preset: `0.8 / 0.05 / 0.05 / 0.1`.
    pub fn taste_profile(
        score_min: i64,
        score_max: i64,
        members_log_min: i64,
        members_log_max: i64,
        favorites_log_min: i64,
        favorites_log_max: i64,
    ) -> (r: RankConfig)
        ensures
            r.valid(),
            r.w_sim == 800_000 && r.w_score == 50_000 && r.w_members == 50_000 && r.w_favorites
                == 100_000,
            r.score_min == score_min && r.score_max == score_max,
            r.members_log_min == members_log_min && r.members_log_max == members_log_max,
            r.favorites_log_min == favorites_log_min && r.favorites_log_max == favorites_log_max,
    {
        RankConfig {
            w_sim: 800_000,
            w_score: 50_000,
            w_members: 50_000,
            w_favorites: 100_000,
            score_min,
            score_max,
            members_log_min,
            members_log_max,
            favorites_log_min,
            favorites_log_max,
        }
    }
}

/// The blended final score: the similarity score brought back to `SCALE`
/// units, the min-max-normalized popularity score and the log-normalized
/// member and favorite counts, combined with the four weights.
pub open spec fn final_score_spec(
    sim: int,
    score: int,
    members: int,
    favorites: int,
    cfg: RankConfig,
) -> int {
    let s = div_trunc(sim, SCALE as int);
    let ns = min_max_norm_spec(score, cfg.score_min as int, cfg.score_max as int);
    let nm = min_max_norm_spec(
        ln1p_spec(members),
        cfg.members_log_min as int,
        cfg.members_log_max as int,
    );
    let nf = min_max_norm_spec(
        ln1p_spec(favorites),
        cfg.favorites_log_min as int,
        cfg.favorites_log_max as int,
    );
    div_trunc(
        cfg.w_sim * s + cfg.w_score * ns + cfg.w_members * nm + cfg.w_favorites * nf,
        SCALE as int,
    )
}

/// Truncating division has exactly the magnitude of the Euclidean quotient
/// of the magnitudes.
proof fn lemma_div_trunc_abs(a: int, b: int)
    requires
        b > 0,
    ensures
        abs_val(div_trunc(a, b)) == abs_val(a) / b,
{
    if a >= 0 {
    } else {
        vstd::arithmetic::div_mod::lemma_div_pos_is_pos(-a, b);
    }
}

/// Truncating division by `SCALE`, total over `i128` except the very
/// smallest value.
fn div_scale_i128(x: i128) -> (r: i128)
    requires
        x > i128::MIN,
    ensures
        r == div_trunc(x as int, SCALE as int),
        abs_val(r as int) == abs_val(x as int) / (SCALE as int),
{
    proof {
        lemma_div_trunc_abs(x as int, SCALE as int);
        if x >= 0 {
            vstd::arithmetic::div_mod::lemma_div_nonincreasing(x as int, SCALE as int);
            vstd::arithmetic::div_mod::lemma_div_pos_is_pos(x as int, SCALE as int);
        } else {
            vstd::arithmetic::div_mod::lemma_div_nonincreasing(-(x as int), SCALE as int);
            vstd::arithmetic::div_mod::lemma_div_pos_is_pos(-(x as int), SCALE as int);
        }
    }
    if x >= 0 {
        ((x as u128) / (SCALE as u128)) as i128
    } else {
        -(((-x) as u128 / (SCALE as u128)) as i128)
    }
}

/// Computes the blended final score of one candidate.
fn blend_score(sim: i64, score: i64, members_count: u32, favorites_count: u32, cfg: &RankConfig) -> (r:
    i64)
    requires
        cfg.valid(),
    ensures
        r == final_score_spec(
            sim as int,
            score as int,
            members_count as int,
            favorites_count as int,
            *cfg,
        ),
{
    let s: i128 = div_scale_i128(sim as i128);
    let ns: i64 = norm(score, cfg.score_min, cfg.score_max);
    let nm_raw: i64 = ln1p_fixed(members_count);
    let nm: i64 = norm(nm_raw, cfg.members_log_min, cfg.members_log_max);
    let nf_raw: i64 = ln1p_fixed(favorites_count);
    let nf: i64 = norm(nf_raw, cfg.favorites_log_min, cfg.favorites_log_max);
    proof {
        vstd::arithmetic::div_mod::lemma_div_is_ordered(
            abs_val(sim as int),
            0x8000_0000_0000_0000,
            SCALE as int,
        );
        assert(abs_val(s as int) <= 0x8000_0000_0000_0000int / (SCALE as int));
        assert((cfg.w_sim as int) * (s as int) <= (SCALE as int) * (0x8000_0000_0000_0000int / (
        SCALE as int)) && (cfg.w_sim as int) * (s as int) >= -((SCALE as int) * (
        0x8000_0000_0000_0000int / (SCALE as int)))) by (nonlinear_arith)
            requires
                0 <= cfg.w_sim <= SCALE,
                abs_val(s as int) <= 0x8000_0000_0000_0000int / (SCALE as int),
        ;
        assert(0 <= (cfg.w_score as int) * (ns as int) <= (SCALE as int) * (SCALE as int))
            by (nonlinear_arith)
            requires
                0 <= cfg.w_score <= SCALE,
                0 <= ns <= SCALE,
        ;
        assert(0 <= (cfg.w_members as int) * (nm as int) <= (SCALE as int) * (SCALE as int))
            by (nonlinear_arith)
            requires
                0 <= cfg.w_members <= SCALE,
                0 <= nm <= SCALE,
        ;
        assert(0 <= (cfg.w_favorites as int) * (nf as int) <= (SCALE as int) * (SCALE as int))
            by (nonlinear_arith)
            requires
                0 <= cfg.w_favorites <= SCALE,
                0 <= nf <= SCALE,
        ;
    }
    let total: i128 = (cfg.w_sim as i128) * s + (cfg.w_score as i128) * (ns as i128) + (
    cfg.w_members as i128) * (nm as i128) + (cfg.w_favorites as i128) * (nf as i128);
    proof {
        assert(abs_val(total as int) <= 9_226_372_036_854_000_000);
        vstd::arithmetic::div_mod::lemma_div_is_ordered(
            abs_val(total as int),
            9_226_372_036_854_000_000,
            SCALE as int,
        );
    }
    let f: i128 = div_scale_i128(total);
    f as i64
}

/// The blended final score of the catalog item at `idx` for this query.
pub open spec fn item_final_score(
    query: Seq<i64>,
    store: AnimeEmbeddings,
    idx: int,
    cfg: RankConfig,
) -> int {
    final_score_spec(
        dot_spec(query, store.embeddings@[idx]@),
        store.scores@[idx] as int,
        store.members@[idx] as int,
        store.favorites@[idx] as int,
        cfg,
    )
}

/// `r` is the ranked result of the catalog item at `idx`: identity and
/// presentation fields copied from the store, the score the blended final
/// score of that item for this query.
pub open spec fn result_matches_item(
    r: AnimeResult,
    query: Seq<i64>,
    store: AnimeEmbeddings,
    idx: int,
    cfg: RankConfig,
) -> bool {
    &&& 0 <= idx < store.len_spec()
    &&& r.title@ == store.names@[idx]@
    &&& r.image_url@ == store.picture_urls@[idx]@
    &&& r.llm_description@ == store.llm_description@[idx]@
    &&& r.anime_id == store.anime_ids@[idx]
    &&& r.score == item_final_score(query, store, idx, cfg)
}

/// Some result entry carries this external id.
pub open spec fn result_ids_contain(res: Seq<AnimeResult>, id: u32) -> bool {
    exists|t: int| 0 <= t < res.len() && (#[trigger] res[t]).anime_id == id
}

/// `pool` is a coarse-recall pool of size `m` for this query: the top
/// `min(m, N)` candidates by dot product, each with its exact score and a
/// distinct valid index, in non-increasing score order, and no omitted
/// candidate scores better than the last kept one.
pub open spec fn is_recall_pool(
    pool: Seq<(usize, i64)>,
    query: Seq<i64>,
    store: AnimeEmbeddings,
    m: int,
) -> bool {
    &&& pool.len() == vstd::math::min(m, store.embeddings@.len() as int)
    &&& forall|t: int|
        0 <= t < pool.len() ==> (#[trigger] pool[t]).0 < store.embeddings@.len() && pool[t].1
            == dot_spec(query, store.embeddings@[pool[t].0 as int]@)
    &&& crate::search::sorted_desc(pool)
    &&& crate::search::distinct_indices(pool)
    &&& forall|j: int|
        0 <= j < store.embeddings@.len() && !crate::search::in_result(pool, j) && pool.len() > 0
            ==> dot_spec(query, store.embeddings@[j]@) <= pool[pool.len() - 1].1
}

/// Some pool candidate carries this external id.
pub open spec fn pool_ids_contain(pool: Seq<(usize, i64)>, store: AnimeEmbeddings, id: u32) -> bool {
    exists|v: int| 0 <= v < pool.len() && store.anime_ids@[(#[trigger] pool[v]).0 as int] == id
}

/// `res` is the ranked outcome of the coarse-recall pool of size `2k`:
/// every returned item comes from the pool, every non-excluded pool
/// candidate is either returned or its blended score is no better than any
/// returned item's, and a result shorter than `k` has exhausted the
/// non-excluded pool.
pub open spec fn ranked_from_pool(
    res: Seq<AnimeResult>,
    pool: Seq<(usize, i64)>,
    query: Seq<i64>,
    store: AnimeEmbeddings,
    excluded: Set<u32>,
    k: int,
    cfg: RankConfig,
) -> bool {
    &&& is_recall_pool(pool, query, store, 2 * k)
    &&& forall|t: int|
        0 <= t < res.len() ==> pool_ids_contain(pool, store, (#[trigger] res[t]).anime_id)
    &&& forall|v: int, u: int|
        0 <= v < pool.len() && 0 <= u < res.len() && !excluded.contains(
            store.anime_ids@[(#[trigger] pool[v]).0 as int],
        ) && !result_ids_contain(res, store.anime_ids@[pool[v].0 as int]) ==> (
        #[trigger] res[u]).score >= item_final_score(query, store, pool[v].0 as int, cfg)
    &&& forall|v: int|
        res.len() < k && 0 <= v < pool.len() ==> excluded.contains(
            store.anime_ids@[(#[trigger] pool[v]).0 as int],
        ) || result_ids_contain(res, store.anime_ids@[pool[v].0 as int])
}

/// The full promise on a ranked result sequence: at most `k` items (and
/// exactly `min(k, N)` when nothing is excluded), each the exact ranked
/// form of a distinct non-excluded catalog item, in non-increasing score
/// order, and the whole sequence the outcome of a coarse-recall pool of
/// size `2k` (see [`ranked_from_pool`]).
pub open spec fn rank_ok(
    res: Seq<AnimeResult>,
    query: Seq<i64>,
    store: AnimeEmbeddings,
    excluded: Set<u32>,
    k: int,
    cfg: RankConfig,
) -> bool {
    &&& res.len() <= k
    &&& (excluded == Set::<u32>::empty() ==> res.len() == vstd::math::min(k, store.len_spec()))
    &&& forall|t: int| 0 <= t < res.len() ==> result_from_store(#[trigger] res[t], query, store, cfg)
    &&& forall|t: int| 0 <= t < res.len() ==> !excluded.contains((#[trigger] res[t]).anime_id)
    &&& forall|a: int, b: int|
        0 <= a < b < res.len() ==> (#[trigger] res[a]).score >= (#[trigger] res[b]).score
    &&& forall|a: int, b: int|
        0 <= a < b < res.len() ==> (#[trigger] res[a]).anime_id != (#[trigger] res[b]).anime_id
    &&& exists|pool: Seq<(usize, i64)>| ranked_from_pool(res, pool, query, store, excluded, k, cfg)
}

/// `r` is the ranked result of some catalog item for this query.
pub open spec fn result_from_store(
    r: AnimeResult,
    query: Seq<i64>,
    store: AnimeEmbeddings,
    cfg: RankConfig,
) -> bool {
    exists|idx: int| result_matches_item(r, query, store, idx, cfg)
}

/// Ranks the catalog against a query vector: recalls a candidate pool of
/// size `2k` by raw similarity, blends each candidate's similarity with its
/// normalized popularity features into a final score, sorts by final score,
/// drops the items whose external id is in `excluded`, and truncates to `k`.
///
/// Fails with `DimensionMismatch` exactly when the query's length differs
/// from the store's embedding dimension. Every returned result belongs to
/// a catalog item outside `excluded`, carries that item's exact blended
/// score, and scores arrive in non-increasing order.
pub fn rank(
    query: &Vec<i64>,
    store: &AnimeEmbeddings,
    excluded: &HashSet<u32>,
    k: usize,
    cfg: &RankConfig,
) -> (r: Result<Vec<AnimeResult>, RecError>)
    requires
        store.well_formed(),
        coords_bounded(query@),
        cfg.valid(),
        k <= usize::MAX / 2,
    ensures
        r is Err <==> query@.len() != store.dim_spec(),
        r matches Err(e) ==> e == RecError::DimensionMismatch,
        r matches Ok(res) ==> rank_ok(res@, query@, *store, excluded@, k as int, *cfg),
{
    let dim: usize = store.embedding_dim();
    if query.len() != dim {
        return Err(RecError::DimensionMismatch);
    }
    proof {
        assert(candidates_ok(query@, store.embeddings@));
    }
    let pool = search_similarity(query, &store.embeddings, 2 * k);
    let ghost n = store.embeddings@.len() as int;
    proof {
        assert(is_recall_pool(pool@, query@, *store, 2 * (k as int)));
    }
    let mut blended: Vec<(usize, i64)> = Vec::new();
    let mut t: usize = 0;
    while t < pool.len()
        invariant
            store.well_formed(),
            cfg.valid(),
            n == store.embeddings@.len() as int,
            forall|u: int|
                0 <= u < pool@.len() ==> (#[trigger] pool@[u]).0 < n && pool@[u].1 == dot_spec(
                    query@,
                    store.embeddings@[pool@[u].0 as int]@,
                ),
            0 <= t <= pool@.len(),
            blended@.len() == t,
            forall|u: int|
                0 <= u < t ==> (#[trigger] blended@[u]).0 == pool@[u].0 && blended@[u].1
                    == item_final_score(query@, *store, blended@[u].0 as int, *cfg),
        decreases pool@.len() - t,
    {
        let idx: usize = pool[t].0;
        let f: i64 = blend_score(pool[t].1, store.scores[idx], store.members[idx], store.favorites[idx], cfg);
        blended.push((idx, f));
        t = t + 1;
    }
    let ghost pre_sort = blended@;
    proof {
        assert(crate::search::distinct_indices(pre_sort));
    }
    sort_pairs_desc(&mut blended);
    proof {
        assert forall|u: int| 0 <= u < blended@.len() implies (#[trigger] blended@[u]).0 < n
            && blended@[u].1 == item_final_score(query@, *store, blended@[u].0 as int, *cfg) by {
            assert(blended@.contains(blended@[u]));
            assert(pre_sort.contains(blended@[u]));
            let s = choose|s: int| 0 <= s < pre_sort.len() && pre_sort[s] == blended@[u];
        }
    }
    let mut out: Vec<AnimeResult> = Vec::new();
    let ghost mut src: Seq<int> = Seq::empty();
    let mut t2: usize = 0;
    while t2 < blended.len() && out.len() < k
        invariant
            store.well_formed(),
            cfg.valid(),
            n == store.embeddings@.len() as int,
            0 <= t2 <= blended@.len(),
            blended@.len() == vstd::math::min((2 * k) as int, n),
            store.len_spec() == n,
            excluded@ == Set::<u32>::empty() ==> out@.len() == vstd::math::min(
                t2 as int,
                k as int,
            ),
            forall|u: int|
                0 <= u < blended@.len() ==> (#[trigger] blended@[u]).0 < n && blended@[u].1
                    == item_final_score(query@, *store, blended@[u].0 as int, *cfg),
            forall|a: int, b: int|
                0 <= a < b < blended@.len() ==> (#[trigger] blended@[a]).1 >= (
                #[trigger] blended@[b]).1,
            crate::search::distinct_indices(blended@),
            is_recall_pool(pool@, query@, *store, 2 * (k as int)),
            pre_sort.len() == blended@.len(),
            forall|v: int|
                0 <= v < pre_sort.len() ==> (#[trigger] pre_sort[v]).0 == pool@[v].0
                    && pre_sort[v].1 == item_final_score(query@, *store, pool@[v].0 as int, *cfg),
            crate::search::same_elements(blended@, pre_sort),
            forall|w: int|
                0 <= w < t2 ==> excluded@.contains(
                    store.anime_ids@[(#[trigger] blended@[w]).0 as int],
                ) || result_ids_contain(out@, store.anime_ids@[blended@[w].0 as int]),
            src.len() == out@.len(),
            forall|u: int| 0 <= u < src.len() ==> 0 <= #[trigger] src[u] < t2,
            forall|a: int, b: int| 0 <= a < b < src.len() ==> src[a] != src[b],
            forall|u: int|
                0 <= u < src.len() ==> (#[trigger] out@[u]).anime_id == store.anime_ids@[blended@[
                    src[u]
                ].0 as int],
            out@.len() <= k,
            forall|u: int|
                0 <= u < out@.len() ==> result_from_store(#[trigger] out@[u], query@, *store, *cfg),
            forall|u: int|
                0 <= u < out@.len() ==> !excluded@.contains((#[trigger] out@[u]).anime_id),
            forall|a: int, b: int|
                0 <= a < b < out@.len() ==> (#[trigger] out@[a]).score >= (#[trigger] out@[b]).score,
            forall|u: int, v: int|
                0 <= u < out@.len() && t2 <= v < blended@.len() ==> (#[trigger] out@[u]).score >= (
                #[trigger] blended@[v]).1,
        decreases blended@.len() - t2,
    {
        let idx: usize = blended[t2].0;
        let id: u32 = store.anime_ids[idx];
        let ghost out_before = out@;
        if !excluded.contains(&id) {
            let res = AnimeResult {
                title: store.names[idx].clone(),
                score: blended[t2].1,
                image_url: store.picture_urls[idx].clone(),
                llm_description: store.llm_description[idx].clone(),
                anime_id: id,
            };
            proof {
                assert(result_matches_item(res, query@, *store, idx as int, *cfg));
            }
            out.push(res);
            proof {
                src = src.push(t2 as int);
                assert forall|u: int|
                    0 <= u < out@.len() implies result_from_store(
                    #[trigger] out@[u],
                    query@,
                    *store,
                    *cfg,
                ) by {
                    if u == out@.len() - 1 {
                        assert(result_matches_item(out@[u], query@, *store, idx as int, *cfg));
                    }
                }
            }
        }
        proof {
            assert forall|w: int|
                0 <= w < t2 + 1 implies excluded@.contains(
                store.anime_ids@[(#[trigger] blended@[w]).0 as int],
            ) || result_ids_contain(out@, store.anime_ids@[blended@[w].0 as int]) by {
                let id_w = store.anime_ids@[blended@[w].0 as int];
                if w == t2 {
                    if !excluded@.contains(id_w) {
                        assert(out@[out@.len() - 1].anime_id == id_w);
                        assert(result_ids_contain(out@, id_w));
                    }
                } else {
                    if !excluded@.contains(id_w) {
                        let t = choose|t: int|
                            0 <= t < out_before.len() && (#[trigger] out_before[t]).anime_id
                                == id_w;
                        assert(out@[t].anime_id == id_w);
                        assert(result_ids_contain(out@, id_w));
                    }
                }
            }
        }
        t2 = t2 + 1;
    }
    proof {
        if excluded@ == Set::<u32>::empty() {
            assert(out@.len() == vstd::math::min(k as int, store.len_spec()));
        }
        assert forall|a: int, b: int|
            0 <= a < b < out@.len() implies (#[trigger] out@[a]).anime_id != (
        #[trigger] out@[b]).anime_id by {
            let ia = blended@[src[a]].0 as int;
            let ib = blended@[src[b]].0 as int;
            assert(ia != ib);
            if ia < ib {
                assert(store.anime_ids@[ia] != store.anime_ids@[ib]);
            } else {
                assert(store.anime_ids@[ib] != store.anime_ids@[ia]);
            }
        }
        assert forall|v: int, u: int|
            0 <= v < pool@.len() && 0 <= u < out@.len() && !excluded@.contains(
                store.anime_ids@[(#[trigger] pool@[v]).0 as int],
            ) && !result_ids_contain(out@, store.anime_ids@[pool@[v].0 as int]) implies (
        #[trigger] out@[u]).score >= item_final_score(query@, *store, pool@[v].0 as int, *cfg) by {
            assert(pre_sort.contains(pre_sort[v]));
            assert(blended@.contains(pre_sort[v]));
            let w = choose|w: int| 0 <= w < blended@.len() && blended@[w] == pre_sort[v];
            assert(blended@[w].0 == pool@[v].0);
            if w < t2 {
                assert(false);
            } else {
                assert(out@[u].score >= blended@[w].1);
            }
        }
        assert forall|v: int|
            out@.len() < k && 0 <= v < pool@.len() implies excluded@.contains(
            store.anime_ids@[(#[trigger] pool@[v]).0 as int],
        ) || result_ids_contain(out@, store.anime_ids@[pool@[v].0 as int]) by {
            assert(t2 == blended@.len());
            assert(pre_sort.contains(pre_sort[v]));
            assert(blended@.contains(pre_sort[v]));
            let w = choose|w: int| 0 <= w < blended@.len() && blended@[w] == pre_sort[v];
            assert(blended@[w].0 == pool@[v].0);
        }
        assert forall|t: int|
            0 <= t < out@.len() implies pool_ids_contain(
            pool@,
            *store,
            (#[trigger] out@[t]).anime_id,
        ) by {
            let w = src[t];
            assert(blended@.contains(blended@[w]));
            assert(pre_sort.contains(blended@[w]));
            let v = choose|v: int| 0 <= v < pre_sort.len() && pre_sort[v] == blended@[w];
            assert(store.anime_ids@[pool@[v].0 as int] == out@[t].anime_id);
        }
        assert(ranked_from_pool(out@, pool@, query@, *store, excluded@, k as int, *cfg));
        assert(exists|p: Seq<(usize, i64)>|
            ranked_from_pool(out@, p, query@, *store, excluded@, k as int, *cfg));
        assert(rank_ok(out@, query@, *store, excluded@, k as int, *cfg));
    }
    Ok(out)
}

/// Ranks the catalog for a free-text query's embedding with no exclusions.
/// The caller embeds the text through the external encoder and hands the
/// vector here.
pub fn query_anime(store: &AnimeEmbeddings, query_emb: &Vec<i64>, k: usize, cfg: &RankConfig) -> (r:
    Result<Vec<AnimeResult>, RecError>)
    requires
        store.well_formed(),
        coords_bounded(query_emb@),
        cfg.valid(),
        k <= usize::MAX / 2,
    ensures
        r is Err <==> query_emb@.len() != store.dim_spec(),
        r matches Err(e) ==> e == RecError::DimensionMismatch,
        r matches Ok(res) ==> {
            &&& res@.len() == vstd::math::min(k as int, store.len_spec())
            &&& rank_ok(res@, query_emb@, *store, Set::<u32>::empty(), k as int, *cfg)
        },
{
    let excluded: HashSet<u32> = HashSet::new();
    rank(query_emb, store, &excluded, k, cfg)
}

/// Ranks the catalog for a user's taste: builds the liked and disliked
/// weighted centroids, combines them into one taste query, and ranks with
/// it, excluding the already-seen items.
///
/// Surfaces `NoSignal` exactly when no taste query can be built (both
/// centroids absent), and `DimensionMismatch` exactly when a taste query
/// exists but its dimension differs from the store's.
pub fn query_by_taste(
    store: &AnimeEmbeddings,
    positive_pairs: &Vec<(Vec<i64>, i64)>,
    negative_pairs: &Vec<(Vec<i64>, i64)>,
    excluded: &HashSet<u32>,
    k: usize,
    cfg: &RankConfig,
) -> (r: Result<Vec<AnimeResult>, RecError>)
    requires
        store.well_formed(),
        pairs_bounded(positive_pairs@),
        pairs_bounded(negative_pairs@),
        cfg.valid(),
        k <= usize::MAX / 2,
    ensures
        ({
            let tq = taste_query_spec(
                centroid_opt(positive_pairs@),
                centroid_opt(negative_pairs@),
            );
            &&& (r is Err <==> (tq is None || (tq matches Some(q) && q.len() != store.dim_spec())))
            &&& (r == Err::<Vec<AnimeResult>, RecError>(RecError::NoSignal) <==> tq is None)
            &&& (r == Err::<Vec<AnimeResult>, RecError>(RecError::DimensionMismatch) <==> (
            tq matches Some(q) && q.len() != store.dim_spec()))
            &&& (r matches Ok(res) ==> {
                &&& tq matches Some(q) && q.len() == store.dim_spec()
                &&& rank_ok(res@, tq.unwrap(), *store, excluded@, k as int, *cfg)
            })
        }),
{
    let positive = weighted_centroid(positive_pairs);
    let negative = weighted_centroid(negative_pairs);
    match build_taste_query(positive, negative) {
        None => Err(RecError::NoSignal),
        Some(q) => {
            proof {
                assert(coords_bounded(q@));
            }
            rank(&q, store, excluded, k, cfg)
        },
    }
}

} // verus!
