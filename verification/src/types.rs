//! Catalog data model: the immutable embedding store with its parallel
//! arrays, the per-row ingestion types, the ranked-result record and the
//! engine's error taxonomy.

use vstd::prelude::*;

use crate::vec_ops::{coords_bounded, COORD_LIMIT, DIM_LIMIT};

verus! {

/// Error taxonomy of the engine.
#[derive(Debug, Clone, Copy, PartialEq, Eq, Structural)]
pub enum RecError {
    /// The persisted snapshot could not be decoded.
    CorruptStore,
    /// The store's parallel arrays (or embedding dimensions, or external
    /// ids) disagree with the store invariant.
    StoreShapeInvalid,
    /// A query vector's length disagrees with the store's dimension.
    DimensionMismatch,
    /// Taste-profile construction yielded no usable vector.
    NoSignal,
}

/// One image variant of a raw catalog entry.
#[derive(Debug)]
pub struct ImageFormat {
    pub large_image_url: Option<String>,
}

/// Image links of a raw catalog entry.
#[derive(Debug)]
pub struct Images {
    pub webp: Option<ImageFormat>,
}

/// A raw catalog entry as decoded from the dataset, before filtering.
/// The popularity score is a fixed-point number.
#[derive(Debug)]
pub struct AnimeData {
    pub synopsis: Option<String>,
    pub llm_description: Option<String>,
    pub images: Option<Images>,
    pub score: i64,
    pub members: u32,
    pub favorites: u32,
}

/// A catalog row that passed filtering: every presentation field present,
/// the synopsis enriched with the generated description.
#[derive(Debug)]
pub struct AnimeFilteredData {
    pub anime_id: u32,
    pub title: String,
    pub rich_synopsis: String,
    pub llm_description: String,
    pub picture: String,
    pub score: i64,
    pub members: u32,
    pub favorites: u32,
}

/// One ranked recommendation: the terminal output artifact.
#[derive(Debug)]
pub struct AnimeResult {
    pub title: String,
    pub score: i64,
    pub image_url: String,
    pub llm_description: String,
    pub anime_id: u32,
}

/// The immutable, in-memory catalog: parallel arrays of item identity,
/// embedding and popularity metadata, addressable by index and by external
/// id. Loaded once, never mutated.
#[derive(Debug)]
pub struct AnimeEmbeddings {
    pub names: Vec<String>,
    pub embeddings: Vec<Vec<i64>>,
    pub picture_urls: Vec<String>,
    pub scores: Vec<i64>,
    pub members: Vec<u32>,
    pub favorites: Vec<u32>,
    pub llm_description: Vec<String>,
    pub anime_ids: Vec<u32>,
}

impl AnimeEmbeddings {
    /// Number of catalog items.
    pub open spec fn len_spec(self) -> int {
        self.names@.len() as int
    }

    /// Embedding dimension of the store (zero for an empty store).
    pub open spec fn dim_spec(self) -> int {
        if self.embeddings@.len() > 0 {
            self.embeddings@[0]@.len() as int
        } else {
            0
        }
    }

    /// Store invariant: every parallel array has identical length, every
    /// embedding has the store's dimension with bounded components, and
    /// external ids are unique.
    pub open spec fn well_formed(self) -> bool {
        &&& self.embeddings@.len() == self.names@.len()
        &&& self.picture_urls@.len() == self.names@.len()
        &&& self.scores@.len() == self.names@.len()
        &&& self.members@.len() == self.names@.len()
        &&& self.favorites@.len() == self.names@.len()
        &&& self.llm_description@.len() == self.names@.len()
        &&& self.anime_ids@.len() == self.names@.len()
        &&& self.dim_spec() <= DIM_LIMIT
        &&& forall|i: int|
            0 <= i < self.embeddings@.len() ==> (#[trigger] self.embeddings@[i])@.len()
                == self.dim_spec() && coords_bounded(self.embeddings@[i]@)
        &&& forall|a: int, b: int|
            0 <= a < b < self.anime_ids@.len() ==> self.anime_ids@[a] != self.anime_ids@[b]
    }

    /// Number of catalog items.
    pub fn len(&self) -> (r: usize)
        ensures
            r as int == self.len_spec(),
    {
        self.names.len()
    }

    /// Embedding dimension of the store (zero for an empty store).
    pub fn embedding_dim(&self) -> (r: usize)
        ensures
            r as int == self.dim_spec(),
    {
        if self.embeddings.len() > 0 {
            self.embeddings[0].len()
        } else {
            0
        }
    }

    /// A read-only view of the catalog item at `index`: identity,
    /// presentation and popularity fields, copied out of the parallel
    /// arrays.
    pub fn item_at(&self, index: usize) -> (r: (String, String, String, i64, u32, u32, u32))
        requires
            self.well_formed(),
            index < self.len_spec(),
        ensures
            r.0@ == self.names@[index as int]@,
            r.1@ == self.picture_urls@[index as int]@,
            r.2@ == self.llm_description@[index as int]@,
            r.3 == self.scores@[index as int],
            r.4 == self.members@[index as int],
            r.5 == self.favorites@[index as int],
            r.6 == self.anime_ids@[index as int],
    {
        (
            self.names[index].clone(),
            self.picture_urls[index].clone(),
            self.llm_description[index].clone(),
            self.scores[index],
            self.members[index],
            self.favorites[index],
            self.anime_ids[index],
        )
    }

    /// Embedding lookup by external id: returns nothing when the id is
    /// absent, never an error.
    pub fn embedding_for(&self, anime_id: u32) -> (r: Option<&Vec<i64>>)
        requires
            self.well_formed(),
        ensures
            r matches Some(e) ==> exists|i: int|
                0 <= i < self.len_spec() && self.anime_ids@[i] == anime_id && e == self.embeddings@[
                    i
                ],
            r is None <==> (forall|i: int|
                0 <= i < self.len_spec() ==> self.anime_ids@[i] != anime_id),
    {
        let mut i: usize = 0;
        while i < self.anime_ids.len()
            invariant
                self.well_formed(),
                0 <= i <= self.len_spec(),
                forall|j: int| 0 <= j < i ==> self.anime_ids@[j] != anime_id,
            decreases self.len_spec() - i,
        {
            if self.anime_ids[i] == anime_id {
                return Some(&self.embeddings[i]);
            }
            i = i + 1;
        }
        None
    }
}

/// The transposed per-row data and the embedding array make a shape-valid
/// store: one embedding per row, all of one bounded dimension, all
/// external ids distinct.
pub open spec fn valid_store_input(rows: Seq<AnimeFilteredData>, embs: Seq<Vec<i64>>) -> bool {
    &&& embs.len() == rows.len()
    &&& (embs.len() > 0 ==> embs[0]@.len() <= DIM_LIMIT)
    &&& forall|i: int|
        0 <= i < embs.len() ==> (#[trigger] embs[i])@.len() == embs[0]@.len() && coords_bounded(
            embs[i]@,
        )
    &&& forall|a: int, b: int| 0 <= a < b < rows.len() ==> rows[a].anime_id != rows[b].anime_id
}

fn embeddings_uniform(embs: &Vec<Vec<i64>>) -> (r: bool)
    ensures
        r == (forall|i: int|
            0 <= i < embs@.len() ==> (#[trigger] embs@[i])@.len() == embs@[0]@.len()
                && coords_bounded(embs@[i]@)),
{
    if embs.len() == 0 {
        return true;
    }
    let dim: usize = embs[0].len();
    let mut i: usize = 0;
    while i < embs.len()
        invariant
            0 < embs@.len(),
            dim == embs@[0]@.len(),
            0 <= i <= embs@.len(),
            forall|j: int|
                0 <= j < i ==> (#[trigger] embs@[j])@.len() == embs@[0]@.len() && coords_bounded(
                    embs@[j]@,
                ),
        decreases embs@.len() - i,
    {
        if embs[i].len() != dim {
            return false;
        }
        let mut j: usize = 0;
        while j < dim
            invariant
                0 < embs@.len(),
                0 <= i < embs@.len(),
                dim == embs@[0]@.len(),
                embs@[i as int]@.len() == dim,
                0 <= j <= dim,
                forall|jj: int|
                    0 <= jj < j ==> -COORD_LIMIT <= #[trigger] embs@[i as int]@[jj] <= COORD_LIMIT,
            decreases dim - j,
        {
            let e: i64 = embs[i][j];
            if e > COORD_LIMIT || e < -COORD_LIMIT {
                return false;
            }
            j = j + 1;
        }
        i = i + 1;
    }
    true
}

fn ids_unique(rows: &Vec<AnimeFilteredData>) -> (r: bool)
    ensures
        r == (forall|a: int, b: int|
            0 <= a < b < rows@.len() ==> rows@[a].anime_id != rows@[b].anime_id),
{
    let mut i: usize = 0;
    while i < rows.len()
        invariant
            0 <= i <= rows@.len(),
            forall|a: int, b: int| 0 <= a < b < i ==> rows@[a].anime_id != rows@[b].anime_id,
        decreases rows@.len() - i,
    {
        let mut j: usize = 0;
        while j < i
            invariant
                0 <= j <= i < rows@.len(),
                forall|a: int| 0 <= a < j ==> rows@[a].anime_id != rows@[i as int].anime_id,
            decreases i - j,
        {
            if rows[j].anime_id == rows[i].anime_id {
                return false;
            }
            j = j + 1;
        }
        i = i + 1;
    }
    true
}

/// Builds the persisted-snapshot structure from filtered dataset rows and
/// their embeddings: transposes the rows into the store's parallel arrays
/// after validating the shape.
///
/// Fails with `StoreShapeInvalid` exactly when the input violates the
/// store invariant: a row count that disagrees with the embedding count,
/// embeddings of unequal or oversized dimension or with out-of-range
/// components, or duplicate external ids.
pub fn build_bin_struct_from_json(anime_data: &Vec<AnimeFilteredData>, embeddings: Vec<Vec<i64>>) -> (r:
    Result<AnimeEmbeddings, RecError>)
    ensures
        r is Ok <==> valid_store_input(anime_data@, embeddings@),
        r matches Err(e) ==> e == RecError::StoreShapeInvalid,
        r matches Ok(s) ==> {
            &&& s.well_formed()
            &&& s.len_spec() == anime_data@.len()
            &&& s.embeddings@ == embeddings@
            &&& forall|i: int|
                0 <= i < anime_data@.len() ==> (#[trigger] s.names@[i])@ == anime_data@[i].title@
            &&& forall|i: int|
                0 <= i < anime_data@.len() ==> (#[trigger] s.picture_urls@[i])@
                    == anime_data@[i].picture@
            &&& forall|i: int|
                0 <= i < anime_data@.len() ==> (#[trigger] s.llm_description@[i])@
                    == anime_data@[i].llm_description@
            &&& forall|i: int|
                0 <= i < anime_data@.len() ==> #[trigger] s.scores@[i] == anime_data@[i].score
            &&& forall|i: int|
                0 <= i < anime_data@.len() ==> #[trigger] s.members@[i] == anime_data@[i].members
            &&& forall|i: int|
                0 <= i < anime_data@.len() ==> #[trigger] s.favorites@[i]
                    == anime_data@[i].favorites
            &&& forall|i: int|
                0 <= i < anime_data@.len() ==> #[trigger] s.anime_ids@[i]
                    == anime_data@[i].anime_id
        },
{
    if embeddings.len() != anime_data.len() {
        return Err(RecError::StoreShapeInvalid);
    }
    if embeddings.len() > 0 && embeddings[0].len() > DIM_LIMIT {
        return Err(RecError::StoreShapeInvalid);
    }
    if !embeddings_uniform(&embeddings) {
        return Err(RecError::StoreShapeInvalid);
    }
    if !ids_unique(anime_data) {
        return Err(RecError::StoreShapeInvalid);
    }
    let n: usize = anime_data.len();
    let mut names: Vec<String> = Vec::new();
    let mut picture_urls: Vec<String> = Vec::new();
    let mut scores: Vec<i64> = Vec::new();
    let mut members: Vec<u32> = Vec::new();
    let mut favorites: Vec<u32> = Vec::new();
    let mut llm_descriptions: Vec<String> = Vec::new();
    let mut anime_ids: Vec<u32> = Vec::new();
    let mut i: usize = 0;
    while i < n
        invariant
            n == anime_data@.len(),
            0 <= i <= n,
            names@.len() == i,
            picture_urls@.len() == i,
            scores@.len() == i,
            members@.len() == i,
            favorites@.len() == i,
            llm_descriptions@.len() == i,
            anime_ids@.len() == i,
            forall|j: int| 0 <= j < i ==> (#[trigger] names@[j])@ == anime_data@[j].title@,
            forall|j: int| 0 <= j < i ==> (#[trigger] picture_urls@[j])@ == anime_data@[j].picture@,
            forall|j: int|
                0 <= j < i ==> (#[trigger] llm_descriptions@[j])@
                    == anime_data@[j].llm_description@,
            forall|j: int| 0 <= j < i ==> #[trigger] scores@[j] == anime_data@[j].score,
            forall|j: int| 0 <= j < i ==> #[trigger] members@[j] == anime_data@[j].members,
            forall|j: int| 0 <= j < i ==> #[trigger] favorites@[j] == anime_data@[j].favorites,
            forall|j: int| 0 <= j < i ==> #[trigger] anime_ids@[j] == anime_data@[j].anime_id,
        decreases n - i,
    {
        let row = &anime_data[i];
        names.push(row.title.clone());
        picture_urls.push(row.picture.clone());
        scores.push(row.score);
        members.push(row.members);
        favorites.push(row.favorites);
        llm_descriptions.push(row.llm_description.clone());
        anime_ids.push(row.anime_id);
        i = i + 1;
    }
    proof {
        assert forall|a: int, b: int|
            0 <= a < b < anime_ids@.len() implies anime_ids@[a] != anime_ids@[b] by {
            assert(anime_ids@[a] == anime_data@[a].anime_id);
            assert(anime_ids@[b] == anime_data@[b].anime_id);
        }
    }
    Ok(
        AnimeEmbeddings {
            names,
            embeddings,
            picture_urls,
            scores,
            members,
            favorites,
            llm_description: llm_descriptions,
            anime_ids,
        },
    )
}

} // verus!
