// The embedding store: shape validation, id lookup and item access.

use animood::types::{build_bin_struct_from_json, AnimeFilteredData, RecError};
use animood::vec_ops::{COORD_LIMIT, SCALE};

fn row(id: u32, title: &str) -> AnimeFilteredData {
    AnimeFilteredData {
        anime_id: id,
        title: title.to_string(),
        rich_synopsis: "synopsis".to_string(),
        llm_description: "description".to_string(),
        picture: "pic.webp".to_string(),
        score: 7 * SCALE,
        members: 1200,
        favorites: 45,
    }
}

#[test]
fn build_transposes_rows_into_parallel_arrays() {
    let rows = vec![row(10, "alpha"), row(20, "beta")];
    let embeddings: Vec<Vec<i64>> = vec![vec![SCALE, 0], vec![0, SCALE]];
    let store = build_bin_struct_from_json(&rows, embeddings).unwrap();
    assert_eq!(store.len(), 2);
    assert_eq!(store.embedding_dim(), 2);
    assert_eq!(store.names, vec!["alpha".to_string(), "beta".to_string()]);
    assert_eq!(store.anime_ids, vec![10, 20]);
    assert_eq!(store.scores, vec![7 * SCALE, 7 * SCALE]);
    assert_eq!(store.members, vec![1200, 1200]);
    assert_eq!(store.favorites, vec![45, 45]);
}

#[test]
fn build_rejects_row_count_mismatch() {
    let rows = vec![row(10, "alpha"), row(20, "beta")];
    let embeddings: Vec<Vec<i64>> = vec![vec![SCALE, 0]];
    assert_eq!(
        build_bin_struct_from_json(&rows, embeddings).unwrap_err(),
        RecError::StoreShapeInvalid
    );
}

#[test]
fn build_rejects_ragged_embeddings() {
    let rows = vec![row(10, "alpha"), row(20, "beta")];
    let embeddings: Vec<Vec<i64>> = vec![vec![SCALE, 0], vec![SCALE]];
    assert_eq!(
        build_bin_struct_from_json(&rows, embeddings).unwrap_err(),
        RecError::StoreShapeInvalid
    );
}

#[test]
fn build_rejects_duplicate_ids() {
    let rows = vec![row(10, "alpha"), row(10, "beta")];
    let embeddings: Vec<Vec<i64>> = vec![vec![SCALE, 0], vec![0, SCALE]];
    assert_eq!(
        build_bin_struct_from_json(&rows, embeddings).unwrap_err(),
        RecError::StoreShapeInvalid
    );
}

#[test]
fn build_rejects_oversized_components() {
    let rows = vec![row(10, "alpha")];
    let embeddings: Vec<Vec<i64>> = vec![vec![COORD_LIMIT + 1, 0]];
    assert_eq!(
        build_bin_struct_from_json(&rows, embeddings).unwrap_err(),
        RecError::StoreShapeInvalid
    );
}

#[test]
fn build_accepts_an_empty_catalog() {
    let rows: Vec<AnimeFilteredData> = Vec::new();
    let embeddings: Vec<Vec<i64>> = Vec::new();
    let store = build_bin_struct_from_json(&rows, embeddings).unwrap();
    assert_eq!(store.len(), 0);
    assert_eq!(store.embedding_dim(), 0);
}

#[test]
fn embedding_for_finds_present_id() {
    let rows = vec![row(10, "alpha"), row(20, "beta")];
    let embeddings: Vec<Vec<i64>> = vec![vec![SCALE, 0], vec![0, SCALE]];
    let store = build_bin_struct_from_json(&rows, embeddings).unwrap();
    assert_eq!(store.embedding_for(20), Some(&vec![0, SCALE]));
}

#[test]
fn embedding_for_absent_id_is_none_not_an_error() {
    let rows = vec![row(10, "alpha")];
    let embeddings: Vec<Vec<i64>> = vec![vec![SCALE, 0]];
    let store = build_bin_struct_from_json(&rows, embeddings).unwrap();
    assert!(store.embedding_for(999).is_none());
}

#[test]
fn item_at_reads_one_row() {
    let rows = vec![row(10, "alpha"), row(20, "beta")];
    let embeddings: Vec<Vec<i64>> = vec![vec![SCALE, 0], vec![0, SCALE]];
    let store = build_bin_struct_from_json(&rows, embeddings).unwrap();
    let (name, picture, description, score, members, favorites, id) = store.item_at(1);
    assert_eq!(name, "beta");
    assert_eq!(picture, "pic.webp");
    assert_eq!(description, "description");
    assert_eq!(score, 7 * SCALE);
    assert_eq!(members, 1200);
    assert_eq!(favorites, 45);
    assert_eq!(id, 20);
}

#[test]
fn corrupt_store_is_a_distinct_error() {
    // The decode failure of a persisted snapshot is reported as its own
    // variant, apart from shape problems.
    assert_ne!(RecError::CorruptStore, RecError::StoreShapeInvalid);
    assert!(matches!(RecError::CorruptStore, RecError::CorruptStore));
}
