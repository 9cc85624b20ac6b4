// Similarity search and ranking on a small three-item store of dimension
// two: embeddings [1,0], [0,1], [1,1] with identical popularity features.

use std::collections::HashSet;

use animood::rank::{query_anime, query_by_taste, rank, RankConfig};
use animood::search::search_similarity;
use animood::types::{build_bin_struct_from_json, AnimeEmbeddings, AnimeFilteredData, RecError};
use animood::vec_ops::SCALE;

fn row(id: u32, title: &str) -> AnimeFilteredData {
    AnimeFilteredData {
        anime_id: id,
        title: title.to_string(),
        rich_synopsis: "synopsis".to_string(),
        llm_description: "description".to_string(),
        picture: "https://example.invalid/pic.webp".to_string(),
        score: 5 * SCALE,
        members: 0,
        favorites: 0,
    }
}

fn store3() -> AnimeEmbeddings {
    let rows = vec![row(1, "first"), row(2, "second"), row(3, "third")];
    let embeddings: Vec<Vec<i64>> = vec![
        vec![SCALE, 0],
        vec![0, SCALE],
        vec![SCALE, SCALE],
    ];
    build_bin_struct_from_json(&rows, embeddings).unwrap()
}

// Popularity contributions vanish: a degenerate score range and log bounds
// that map a zero count to zero.
fn cfg() -> RankConfig {
    RankConfig::free_text(5 * SCALE, 5 * SCALE, 0, 20 * SCALE, 0, 20 * SCALE)
}

#[test]
fn search_scores_every_candidate_exactly() {
    let query: Vec<i64> = vec![SCALE, 0];
    let embeddings: Vec<Vec<i64>> = vec![
        vec![SCALE, 0],
        vec![0, SCALE],
        vec![SCALE, SCALE],
    ];
    let top = search_similarity(&query, &embeddings, 10);
    assert_eq!(top.len(), 3);
    // Two candidates tie at 1.0 (in squared-scale units), one scores 0.
    assert_eq!(top[0].1, SCALE * SCALE);
    assert_eq!(top[1].1, SCALE * SCALE);
    assert_eq!(top[2], (1, 0));
    let firsts = [top[0].0, top[1].0];
    assert!(firsts.contains(&0) && firsts.contains(&2));
}

#[test]
fn search_truncates_to_k() {
    let query: Vec<i64> = vec![SCALE, 0];
    let embeddings: Vec<Vec<i64>> = vec![
        vec![SCALE, 0],
        vec![0, SCALE],
        vec![SCALE, SCALE],
    ];
    let top = search_similarity(&query, &embeddings, 2);
    assert_eq!(top.len(), 2);
    assert!(top[0].1 >= top[1].1);
    let firsts = [top[0].0, top[1].0];
    assert!(firsts.contains(&0) && firsts.contains(&2));
}

#[test]
fn search_with_zero_k_is_empty() {
    let query: Vec<i64> = vec![SCALE, 0];
    let embeddings: Vec<Vec<i64>> = vec![vec![SCALE, 0]];
    assert!(search_similarity(&query, &embeddings, 0).is_empty());
}

#[test]
fn rank_top_two_never_holds_the_orthogonal_item() {
    // Query [1,0] with k = 2: items 1 and 3 tie at the top in either
    // order; item 2 (embedding [0,1], similarity 0) never appears.
    let store = store3();
    let query: Vec<i64> = vec![SCALE, 0];
    let excluded: HashSet<u32> = HashSet::new();
    let results = rank(&query, &store, &excluded, 2, &cfg()).unwrap();
    assert_eq!(results.len(), 2);
    let ids = [results[0].anime_id, results[1].anime_id];
    assert!(ids.contains(&1) && ids.contains(&3));
    assert_eq!(results[0].score, results[1].score);
}

#[test]
fn rank_blends_exact_final_score() {
    // With popularity contributions at zero the final score is
    // 0.6 * similarity: 0.6 for the aligned item.
    let store = store3();
    let query: Vec<i64> = vec![SCALE, 0];
    let excluded: HashSet<u32> = HashSet::new();
    let results = rank(&query, &store, &excluded, 3, &cfg()).unwrap();
    assert_eq!(results.len(), 3);
    assert_eq!(results[0].score, 600_000);
    assert_eq!(results[1].score, 600_000);
    assert_eq!(results[2].score, 0);
    assert_eq!(results[2].anime_id, 2);
}

#[test]
fn rank_never_returns_an_excluded_id() {
    // Item 1 would rank first on raw similarity; excluding it removes it
    // regardless of its score.
    let store = store3();
    let query: Vec<i64> = vec![SCALE, 0];
    let mut excluded: HashSet<u32> = HashSet::new();
    excluded.insert(1);
    let results = rank(&query, &store, &excluded, 3, &cfg()).unwrap();
    assert_eq!(results.len(), 2);
    for r in &results {
        assert_ne!(r.anime_id, 1);
    }
}

#[test]
fn rank_rejects_wrong_dimension() {
    let store = store3();
    let query: Vec<i64> = vec![SCALE, 0, 0];
    let excluded: HashSet<u32> = HashSet::new();
    assert_eq!(
        rank(&query, &store, &excluded, 2, &cfg()).unwrap_err(),
        RecError::DimensionMismatch
    );
}

#[test]
fn query_anime_carries_store_fields() {
    let store = store3();
    let query: Vec<i64> = vec![SCALE, 0];
    let results = query_anime(&store, &query, 1, &cfg()).unwrap();
    assert_eq!(results.len(), 1);
    let ids = [1u32, 3u32];
    assert!(ids.contains(&results[0].anime_id));
    assert_eq!(results[0].image_url, "https://example.invalid/pic.webp");
    assert_eq!(results[0].llm_description, "description");
}

#[test]
fn query_by_taste_orders_by_net_preference() {
    // Positive pair ([1,0], 2.0), negative pair ([0,1], 1.0): the taste
    // query [1,-1] ranks item 1 first, item 3 second, item 2 last.
    let store = store3();
    let pos: Vec<(Vec<i64>, i64)> = vec![(vec![SCALE, 0], 2 * SCALE)];
    let neg: Vec<(Vec<i64>, i64)> = vec![(vec![0, SCALE], SCALE)];
    let excluded: HashSet<u32> = HashSet::new();
    let taste_cfg = RankConfig::taste_profile(5 * SCALE, 5 * SCALE, 0, 20 * SCALE, 0, 20 * SCALE);
    let results = query_by_taste(&store, &pos, &neg, &excluded, 3, &taste_cfg).unwrap();
    let ids: Vec<u32> = results.iter().map(|r| r.anime_id).collect();
    assert_eq!(ids, vec![1, 3, 2]);
}

#[test]
fn query_by_taste_without_signal_is_no_signal() {
    let store = store3();
    let pos: Vec<(Vec<i64>, i64)> = Vec::new();
    let neg: Vec<(Vec<i64>, i64)> = Vec::new();
    let excluded: HashSet<u32> = HashSet::new();
    assert_eq!(
        query_by_taste(&store, &pos, &neg, &excluded, 3, &cfg()).unwrap_err(),
        RecError::NoSignal
    );
}
