//! Embedding-based recommendation core.
//!
//! The engine compares a query vector against a catalog of precomputed
//! embedding vectors, re-ranks candidates with popularity metadata and,
//! optionally, a taste profile derived from historical ratings.
//!
//! All quantities are fixed-point numbers: an `i64` holds the value times
//! [`vec_ops::SCALE`] (one million), so `1_500_000` stands for `1.5`.

pub mod load_dataset;
pub mod mal_types;
pub mod rank;
pub mod search;
pub mod types;
pub mod vec_ops;
