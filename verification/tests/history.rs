// User-history handling: signal classification, the exclusion set and the
// preference pairs built from the store.

use animood::mal_types::{
    exclusion_ids, next_page_offset, preference_pairs, split_preference_signals, MalAnimeEntry,
    PAGE_SIZE,
};
use animood::types::{build_bin_struct_from_json, AnimeEmbeddings, AnimeFilteredData};
use animood::vec_ops::SCALE;

fn entry(id: u32, diff: Option<i64>, status: Option<u8>) -> MalAnimeEntry {
    MalAnimeEntry {
        status,
        score: None,
        tags: None,
        anime_title: None,
        anime_id: id,
        anime_score_diff: diff,
        genres: None,
    }
}

fn small_store() -> AnimeEmbeddings {
    let rows = vec![
        AnimeFilteredData {
            anime_id: 1,
            title: "alpha".to_string(),
            rich_synopsis: "s".to_string(),
            llm_description: "d".to_string(),
            picture: "p".to_string(),
            score: 5 * SCALE,
            members: 10,
            favorites: 1,
        },
        AnimeFilteredData {
            anime_id: 2,
            title: "beta".to_string(),
            rich_synopsis: "s".to_string(),
            llm_description: "d".to_string(),
            picture: "p".to_string(),
            score: 6 * SCALE,
            members: 20,
            favorites: 2,
        },
    ];
    let embeddings: Vec<Vec<i64>> = vec![vec![SCALE, 0], vec![0, SCALE]];
    build_bin_struct_from_json(&rows, embeddings).unwrap()
}

#[test]
fn split_classifies_by_signed_threshold() {
    let entries = vec![
        entry(1, Some(3 * SCALE / 2), None),  // +1.5: liked
        entry(2, Some(-2 * SCALE), None),     // -2.0: disliked
        entry(3, Some(SCALE / 5), None),      // +0.2: too weak either way
        entry(4, None, None),                 // no differential
    ];
    let threshold: i64 = SCALE / 2;
    let (pos, neg) = split_preference_signals(&entries, threshold);
    assert_eq!(pos, vec![(1, 3 * SCALE / 2)]);
    assert_eq!(neg, vec![(2, -2 * SCALE)]);
}

#[test]
fn split_discards_sentinel_magnitudes() {
    // 99.0 and beyond stand for "unknown", not a real preference.
    let entries = vec![
        entry(1, Some(99 * SCALE), None),
        entry(2, Some(-99 * SCALE), None),
        entry(3, Some(120 * SCALE), None),
        entry(4, Some(2 * SCALE), None),
    ];
    let (pos, neg) = split_preference_signals(&entries, SCALE / 2);
    assert_eq!(pos, vec![(4, 2 * SCALE)]);
    assert!(neg.is_empty());
}

#[test]
fn split_threshold_is_inclusive() {
    let entries = vec![entry(1, Some(SCALE), None), entry(2, Some(-SCALE), None)];
    let (pos, neg) = split_preference_signals(&entries, SCALE);
    assert_eq!(pos, vec![(1, SCALE)]);
    assert_eq!(neg, vec![(2, -SCALE)]);
}

#[test]
fn exclusion_holds_completed_and_dropped_only() {
    let entries = vec![
        entry(1, None, Some(2)),  // completed
        entry(2, None, Some(4)),  // dropped
        entry(3, None, Some(1)),  // watching
        entry(4, None, None),
    ];
    let excluded = exclusion_ids(&entries);
    assert!(excluded.contains(&1));
    assert!(excluded.contains(&2));
    assert!(!excluded.contains(&3));
    assert!(!excluded.contains(&4));
}

#[test]
fn preference_pairs_skip_ids_the_store_lacks() {
    let store = small_store();
    let signals: Vec<(u32, i64)> = vec![(1, 2 * SCALE), (999, 3 * SCALE), (2, -SCALE)];
    let pairs = preference_pairs(&store, &signals);
    assert_eq!(pairs.len(), 2);
    assert_eq!(pairs[0], (vec![SCALE, 0], 2 * SCALE));
    assert_eq!(pairs[1], (vec![0, SCALE], -SCALE));
}

#[test]
fn page_walk_stops_on_an_empty_page() {
    assert_eq!(next_page_offset(0, 25), Some(PAGE_SIZE));
    assert_eq!(next_page_offset(PAGE_SIZE, PAGE_SIZE), Some(2 * PAGE_SIZE));
    assert_eq!(next_page_offset(2 * PAGE_SIZE, 0), None);
}
