//! User-history signals: the rated-list entry model, the classification of
//! rating differentials into liked/disliked preference signals, the
//! exclusion set of already-seen items, and the page-advance rule of the
//! paginated list fetch.

use std::collections::HashSet;
use vstd::prelude::*;

use crate::types::AnimeEmbeddings;
use crate::vec_ops::{abs_val, WEIGHT_LIMIT};

verus! {

broadcast use vstd::std_specs::hash::group_hash_axioms;

/// A genre tag of a rated-list entry.
#[derive(Debug)]
pub struct Genre {
    pub id: u32,
    pub name: String,
}

/// A demographic tag of a rated-list entry.
#[derive(Debug)]
pub struct Demographic {
    pub id: u32,
    pub name: String,
}

/// One entry of a user's rated list, as the external list provider hands
/// it over: external id, user-level status and score, the signed score
/// differential against the community average (fixed-point), and tags.
#[derive(Debug)]
pub struct MalAnimeEntry {
    pub status: Option<u8>,
    pub score: Option<u8>,
    pub tags: Option<String>,
    pub anime_title: Option<String>,
    pub anime_id: u32,
    pub anime_score_diff: Option<i64>,
    pub genres: Option<Vec<Genre>>,
}

/// List status code: the user completed the item.
pub const STATUS_COMPLETED: u8 = 2;

/// List status code: the user dropped the item.
pub const STATUS_DROPPED: u8 = 4;

/// Differentials at or above this magnitude (the real value `99.0`) are a
/// sentinel for "unknown/unrated", not a real preference signal.
pub const DIFF_SENTINEL: i64 = 99_000_000;

/// The differential counts as a liked signal: below the sentinel and at or
/// above the (positive, configurable) threshold.
pub open spec fn is_positive_signal(diff: int, threshold: int) -> bool {
    abs_val(diff) < DIFF_SENTINEL && diff >= threshold
}

/// The differential counts as a disliked signal: below the sentinel in
/// magnitude and at or below the negated threshold.
pub open spec fn is_negative_signal(diff: int, threshold: int) -> bool {
    abs_val(diff) < DIFF_SENTINEL && diff <= -threshold
}

/// The (id, weight) pairs of the liked signals among the first `n` entries.
pub open spec fn positive_signals(entries: Seq<MalAnimeEntry>, threshold: int, n: int) -> Seq<
    (u32, i64),
>
    decreases n,
{
    if n <= 0 {
        Seq::empty()
    } else {
        let rest = positive_signals(entries, threshold, n - 1);
        match entries[n - 1].anime_score_diff {
            Some(d) => if is_positive_signal(d as int, threshold) {
                rest.push((entries[n - 1].anime_id, d))
            } else {
                rest
            },
            None => rest,
        }
    }
}

/// The (id, weight) pairs of the disliked signals among the first `n`
/// entries.
pub open spec fn negative_signals(entries: Seq<MalAnimeEntry>, threshold: int, n: int) -> Seq<
    (u32, i64),
>
    decreases n,
{
    if n <= 0 {
        Seq::empty()
    } else {
        let rest = negative_signals(entries, threshold, n - 1);
        match entries[n - 1].anime_score_diff {
            Some(d) => if is_negative_signal(d as int, threshold) {
                rest.push((entries[n - 1].anime_id, d))
            } else {
                rest
            },
            None => rest,
        }
    }
}

/// Splits a rated list into liked and disliked (id, weight) signals by the
/// signed score differential: entries without a differential, sentinel
/// magnitudes (`>= 99`) and differentials inside `(-threshold, threshold)`
/// carry no signal and are discarded.
///
/// The threshold is configurable: the intended value is an open question
/// of the product, so it is a parameter rather than a constant.
pub fn split_preference_signals(entries: &Vec<MalAnimeEntry>, threshold: i64) -> (r: (
    Vec<(u32, i64)>,
    Vec<(u32, i64)>,
))
    requires
        threshold > 0,
    ensures
        r.0@ == positive_signals(entries@, threshold as int, entries@.len() as int),
        r.1@ == negative_signals(entries@, threshold as int, entries@.len() as int),
        forall|t: int|
            0 <= t < r.0@.len() ==> -WEIGHT_LIMIT <= (#[trigger] r.0@[t]).1 <= WEIGHT_LIMIT,
        forall|t: int|
            0 <= t < r.1@.len() ==> -WEIGHT_LIMIT <= (#[trigger] r.1@[t]).1 <= WEIGHT_LIMIT,
{
    let mut pos: Vec<(u32, i64)> = Vec::new();
    let mut neg: Vec<(u32, i64)> = Vec::new();
    let mut i: usize = 0;
    while i < entries.len()
        invariant
            threshold > 0,
            0 <= i <= entries@.len(),
            pos@ == positive_signals(entries@, threshold as int, i as int),
            neg@ == negative_signals(entries@, threshold as int, i as int),
            forall|t: int|
                0 <= t < pos@.len() ==> -WEIGHT_LIMIT <= (#[trigger] pos@[t]).1 <= WEIGHT_LIMIT,
            forall|t: int|
                0 <= t < neg@.len() ==> -WEIGHT_LIMIT <= (#[trigger] neg@[t]).1 <= WEIGHT_LIMIT,
        decreases entries@.len() - i,
    {
        let entry = &entries[i];
        match entry.anime_score_diff {
            Some(d) => {
                if d < DIFF_SENTINEL && d > -DIFF_SENTINEL {
                    if d >= threshold {
                        pos.push((entry.anime_id, d));
                    } else if d <= -threshold {
                        neg.push((entry.anime_id, d));
                    }
                }
            },
            None => {},
        }
        i = i + 1;
    }
    (pos, neg)
}

/// The external ids of the entries the user completed or dropped, among
/// the first `n`: the items a recommendation must not repeat.
pub open spec fn exclusion_set(entries: Seq<MalAnimeEntry>, n: int) -> Set<u32>
    decreases n,
{
    if n <= 0 {
        Set::empty()
    } else {
        let rest = exclusion_set(entries, n - 1);
        if entries[n - 1].status == Some(STATUS_COMPLETED) || entries[n - 1].status == Some(
            STATUS_DROPPED,
        ) {
            rest.insert(entries[n - 1].anime_id)
        } else {
            rest
        }
    }
}

/// An id is in the exclusion set exactly when some entry with that id was
/// completed or dropped.
pub proof fn lemma_exclusion_set_contains(entries: Seq<MalAnimeEntry>, n: int, id: u32)
    requires
        0 <= n <= entries.len(),
    ensures
        exclusion_set(entries, n).contains(id) <==> exists|i: int|
            0 <= i < n && (#[trigger] entries[i]).anime_id == id && (entries[i].status == Some(
                STATUS_COMPLETED,
            ) || entries[i].status == Some(STATUS_DROPPED)),
    decreases n,
{
    if n > 0 {
        lemma_exclusion_set_contains(entries, n - 1, id);
        if exclusion_set(entries, n).contains(id) {
            if entries[n - 1].anime_id == id && (entries[n - 1].status == Some(STATUS_COMPLETED)
                || entries[n - 1].status == Some(STATUS_DROPPED)) {
                assert(0 <= n - 1 < n && entries[n - 1].anime_id == id);
            }
        }
    }
}

/// Collects the external ids of the completed and dropped entries into a
/// membership set for the exclusion filter.
pub fn exclusion_ids(entries: &Vec<MalAnimeEntry>) -> (r: HashSet<u32>)
    ensures
        r@ == exclusion_set(entries@, entries@.len() as int),
        forall|id: u32|
            r@.contains(id) <==> exists|i: int|
                0 <= i < entries@.len() && (#[trigger] entries@[i]).anime_id == id && (
                entries@[i].status == Some(STATUS_COMPLETED) || entries@[i].status == Some(
                    STATUS_DROPPED,
                )),
{
    proof {
        assert forall|id: u32|
            exclusion_set(entries@, entries@.len() as int).contains(id) <==> exists|i: int|
                0 <= i < entries@.len() && (#[trigger] entries@[i]).anime_id == id && (
                entries@[i].status == Some(STATUS_COMPLETED) || entries@[i].status == Some(
                    STATUS_DROPPED,
                )) by {
            lemma_exclusion_set_contains(entries@, entries@.len() as int, id);
        }
    }
    let mut r: HashSet<u32> = HashSet::new();
    let mut i: usize = 0;
    while i < entries.len()
        invariant
            0 <= i <= entries@.len(),
            r@ == exclusion_set(entries@, i as int),
        decreases entries@.len() - i,
    {
        let entry = &entries[i];
        let is_completed: bool = match entry.status {
            Some(s) => s == STATUS_COMPLETED || s == STATUS_DROPPED,
            None => false,
        };
        if is_completed {
            r.insert(entry.anime_id);
        }
        i = i + 1;
    }
    r
}

/// The store has an item with this external id.
pub open spec fn store_has_id(store: AnimeEmbeddings, id: u32) -> bool {
    exists|i: int| 0 <= i < store.len_spec() && store.anime_ids@[i] == id
}

/// The embedding of the store item with this external id (unique in a
/// well-formed store).
pub open spec fn store_embedding_of(store: AnimeEmbeddings, id: u32) -> Seq<i64> {
    store.embeddings@[choose|i: int|
        0 <= i < store.len_spec() && store.anime_ids@[i] == id]@
}

/// The (embedding, weight) pairs of the signals among the first `n` whose
/// id the store knows; ids without a store entry are silently skipped.
pub open spec fn preference_pairs_spec(
    store: AnimeEmbeddings,
    signals: Seq<(u32, i64)>,
    n: int,
) -> Seq<(Seq<i64>, i64)>
    decreases n,
{
    if n <= 0 {
        Seq::empty()
    } else {
        let rest = preference_pairs_spec(store, signals, n - 1);
        if store_has_id(store, signals[n - 1].0) {
            rest.push((store_embedding_of(store, signals[n - 1].0), signals[n - 1].1))
        } else {
            rest
        }
    }
}

/// Turns (id, weight) signals into (embedding, weight) pairs by looking
/// each id up in the store; an id without a store entry degrades the
/// signal gracefully (the pair is skipped) rather than failing.
pub fn preference_pairs(store: &AnimeEmbeddings, signals: &Vec<(u32, i64)>) -> (r: Vec<
    (Vec<i64>, i64),
>)
    requires
        store.well_formed(),
        forall|t: int|
            0 <= t < signals@.len() ==> -WEIGHT_LIMIT <= (#[trigger] signals@[t]).1 <= WEIGHT_LIMIT,
    ensures
        r@.len() == preference_pairs_spec(*store, signals@, signals@.len() as int).len(),
        forall|t: int|
            0 <= t < r@.len() ==> (#[trigger] r@[t]).0@ == preference_pairs_spec(
                *store,
                signals@,
                signals@.len() as int,
            )[t].0 && r@[t].1 == preference_pairs_spec(
                *store,
                signals@,
                signals@.len() as int,
            )[t].1,
        crate::vec_ops::pairs_bounded(r@),
{
    let mut r: Vec<(Vec<i64>, i64)> = Vec::new();
    let mut i: usize = 0;
    while i < signals.len()
        invariant
            store.well_formed(),
            forall|t: int|
                0 <= t < signals@.len() ==> -WEIGHT_LIMIT <= (#[trigger] signals@[t]).1
                    <= WEIGHT_LIMIT,
            0 <= i <= signals@.len(),
            r@.len() == preference_pairs_spec(*store, signals@, i as int).len(),
            forall|t: int|
                0 <= t < r@.len() ==> (#[trigger] r@[t]).0@ == preference_pairs_spec(
                    *store,
                    signals@,
                    i as int,
                )[t].0 && r@[t].1 == preference_pairs_spec(*store, signals@, i as int)[t].1,
            crate::vec_ops::pairs_bounded(r@),
        decreases signals@.len() - i,
    {
        let id: u32 = signals[i].0;
        match store.embedding_for(id) {
            Some(e) => {
                let emb: Vec<i64> = e.clone();
                proof {
                    let w = choose|w: int|
                        0 <= w < store.len_spec() && store.anime_ids@[w] == id && e
                            == store.embeddings@[w];
                    let c = choose|c: int| 0 <= c < store.len_spec() && store.anime_ids@[c] == id;
                    assert(store.anime_ids@[w] == store.anime_ids@[c] && w == c);
                    assert(emb@ == store_embedding_of(*store, id));
                }
                r.push((emb, signals[i].1));
            },
            None => {
                proof {
                    assert(!store_has_id(*store, id));
                }
            },
        }
        i = i + 1;
    }
    r
}

/// Page size of the external rated-list endpoint.
pub const PAGE_SIZE: usize = 300;

/// The page-advance rule of the paginated list fetch: an empty page ends
/// the walk, a non-empty one moves the offset forward by one page.
pub fn next_page_offset(offset: usize, fetched: usize) -> (r: Option<usize>)
    requires
        offset + PAGE_SIZE <= usize::MAX,
    ensures
        fetched == 0 ==> r is None,
        fetched > 0 ==> r == Some((offset + PAGE_SIZE) as usize),
{
    if fetched == 0 {
        None
    } else {
        Some(offset + PAGE_SIZE)
    }
}

} // verus!
