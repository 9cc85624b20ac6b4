//! Dataset ingestion rules: which raw catalog entries are kept, and how a
//! kept entry's synopsis is enriched, before embedding and persisting.
//! Decoding the raw JSON is the caller's concern; the rules on the decoded
//! values live here.

use vstd::prelude::*;

use crate::types::{AnimeData, AnimeFilteredData};
use vstd::string::StrSliceExecFns;
use vstd::string::StringExecFns;

verus! {

/// A code point with the Unicode `White_Space` property — the set that
/// `str::trim` removes.
pub open spec fn is_space_code(u: u32) -> bool {
    ||| (0x09 <= u && u <= 0x0D)
    ||| u == 0x20
    ||| u == 0x85
    ||| u == 0xA0
    ||| u == 0x1680
    ||| (0x2000 <= u && u <= 0x200A)
    ||| u == 0x2028
    ||| u == 0x2029
    ||| u == 0x202F
    ||| u == 0x205F
    ||| u == 0x3000
}

/// The character is whitespace.
pub open spec fn is_space_char(c: char) -> bool {
    is_space_code(c as u32)
}

/// The text holds nothing but whitespace.
pub open spec fn is_blank(s: Seq<char>) -> bool {
    forall|i: int| 0 <= i < s.len() ==> is_space_char(#[trigger] s[i])
}

fn text_is_blank(s: &String) -> (r: bool)
    ensures
        r == is_blank(s@),
{
    let n: usize = s.as_str().unicode_len();
    let mut i: usize = 0;
    while i < n
        invariant
            n == s@.len(),
            0 <= i <= n,
            forall|j: int| 0 <= j < i ==> is_space_char(#[trigger] s@[j]),
        decreases n - i,
    {
        let c: char = s.as_str().get_char(i);
        let u: u32 = c as u32;
        let space: bool = (0x09 <= u && u <= 0x0D) || u == 0x20 || u == 0x85 || u == 0xA0 || u
            == 0x1680 || (0x2000 <= u && u <= 0x200A) || u == 0x2028 || u == 0x2029 || u == 0x202F
            || u == 0x205F || u == 0x3000;
        if !space {
            return false;
        }
        i = i + 1;
    }
    true
}

/// A raw entry is kept when it has a non-blank synopsis, a full image-link
/// chain, and a generated description.
pub open spec fn entry_accepted(anime: AnimeData) -> bool {
    &&& anime.synopsis matches Some(s) && !is_blank(s@)
    &&& anime.images matches Some(im) && im.webp matches Some(w) && w.large_image_url is Some
    &&& anime.llm_description is Some
}

/// The enriched synopsis: the raw synopsis, a blank line, the generated
/// description.
pub open spec fn enriched_synopsis(synopsis: Seq<char>, description: Seq<char>) -> Seq<char> {
    synopsis + seq!['\n', '\n'] + description
}

/// Filters one raw catalog entry: an entry without a non-blank synopsis, a
/// complete picture link or a generated description is dropped; a kept
/// entry carries its title, its synopsis enriched with the description,
/// and its popularity fields.
pub fn filter_anime_entry(anime_id: u32, title: String, anime: AnimeData) -> (r: Option<
    AnimeFilteredData,
>)
    ensures
        r is Some <==> entry_accepted(anime),
        r matches Some(f) ==> {
            &&& f.anime_id == anime_id
            &&& f.title@ == title@
            &&& f.rich_synopsis@ == enriched_synopsis(
                anime.synopsis.unwrap()@,
                anime.llm_description.unwrap()@,
            )
            &&& f.llm_description@ == anime.llm_description.unwrap()@
            &&& f.picture@ == anime.images.unwrap().webp.unwrap().large_image_url.unwrap()@
            &&& f.score == anime.score
            &&& f.members == anime.members
            &&& f.favorites == anime.favorites
        },
{
    let synopsis: String = match anime.synopsis {
        Some(s) => s,
        None => {
            return None;
        },
    };
    if text_is_blank(&synopsis) {
        return None;
    }
    let images = match anime.images {
        Some(im) => im,
        None => {
            return None;
        },
    };
    let webp = match images.webp {
        Some(w) => w,
        None => {
            return None;
        },
    };
    let picture: String = match webp.large_image_url {
        Some(p) => p,
        None => {
            return None;
        },
    };
    let description: String = match anime.llm_description {
        Some(d) => d,
        None => {
            return None;
        },
    };
    let mut rich_synopsis = synopsis;
    rich_synopsis.append("\n\n");
    rich_synopsis.append(description.as_str());
    proof {
        reveal_strlit("\n\n");
        assert(("\n\n")@ =~= seq!['\n', '\n']);
    }
    Some(
        AnimeFilteredData {
            anime_id,
            title,
            rich_synopsis,
            llm_description: description,
            picture,
            score: anime.score,
            members: anime.members,
            favorites: anime.favorites,
        },
    )
}

/// The positions, among the first `n` entries, of the entries that pass
/// the filter, in order.
pub open spec fn accepted_indices(entries: Seq<(u32, String, AnimeData)>, n: int) -> Seq<int>
    decreases n,
{
    if n <= 0 {
        Seq::empty()
    } else {
        let rest = accepted_indices(entries, n - 1);
        if entry_accepted(entries[n - 1].2) {
            rest.push(n - 1)
        } else {
            rest
        }
    }
}

/// `r` holds, in order, the filtered form of exactly those among the first
/// `n` entries that pass the filter.
pub open spec fn filtered_prefix_ok(
    entries: Seq<(u32, String, AnimeData)>,
    r: Seq<AnimeFilteredData>,
    n: int,
) -> bool {
    &&& r.len() == accepted_indices(entries, n).len()
    &&& forall|t: int|
        #![trigger r[t]]
        0 <= t < r.len() ==> row_matches_entry(entries, r[t], accepted_indices(entries, n)[t])
}

/// The filtered row `row` is the kept form of the raw entry at `idx`.
pub open spec fn row_matches_entry(
    entries: Seq<(u32, String, AnimeData)>,
    row: AnimeFilteredData,
    idx: int,
) -> bool {
    &&& 0 <= idx
    &&& idx < entries.len()
    &&& entry_accepted(entries[idx].2)
    &&& row.anime_id == entries[idx].0
    &&& row.title@ == entries[idx].1@
    &&& row.rich_synopsis@ == enriched_synopsis(
        entries[idx].2.synopsis.unwrap()@,
        entries[idx].2.llm_description.unwrap()@,
    )
    &&& row.llm_description@ == entries[idx].2.llm_description.unwrap()@
    &&& row.picture@ == entries[idx].2.images.unwrap().webp.unwrap().large_image_url.unwrap()@
    &&& row.score == entries[idx].2.score
    &&& row.members == entries[idx].2.members
    &&& row.favorites == entries[idx].2.favorites
}

/// Filters a decoded dataset: keeps, in order, exactly the entries that
/// pass [`filter_anime_entry`], each carried over with its id, title,
/// enriched synopsis and popularity fields.
pub fn filter_anime_entries(entries: Vec<(u32, String, AnimeData)>) -> (r: Vec<AnimeFilteredData>)
    ensures
        filtered_prefix_ok(entries@, r@, entries@.len() as int),
{
    let ghost orig = entries@;
    let ghost n = orig.len() as int;
    let mut rows = entries;
    let total: usize = rows.len();
    proof {
        assert(n == total as int);
    }
    let mut r: Vec<AnimeFilteredData> = Vec::new();
    let mut i: usize = 0;
    while rows.len() > 0
        invariant
            n == orig.len() as int,
            n <= usize::MAX as int,
            0 <= i <= n,
            rows@ == orig.subrange(i as int, n),
            filtered_prefix_ok(orig, r@, i as int),
        decreases rows@.len(),
    {
        let (id, title, anime) = rows.remove(0);
        proof {
            assert(orig.subrange(i as int, n)[0] == orig[i as int]);
            assert(rows@ =~= orig.subrange(i as int + 1, n));
            assert(id == orig[i as int].0 && title == orig[i as int].1 && anime == orig[
                i as int
            ].2);
        }
        let ghost r_before = r@;
        match filter_anime_entry(id, title, anime) {
            Some(f) => {
                r.push(f);
            },
            None => {},
        }
        proof {
            let acc_next = accepted_indices(orig, i as int + 1);
            let acc_prev = accepted_indices(orig, i as int);
            if entry_accepted(orig[i as int].2) {
                assert(acc_next == acc_prev.push(i as int));
                assert forall|t: int|
                    #![trigger r@[t]]
                    0 <= t < r@.len() implies row_matches_entry(orig, r@[t], acc_next[t]) by {
                    if t < r@.len() - 1 {
                        assert(acc_next[t] == acc_prev[t]);
                        assert(r@[t] == r_before[t]);
                        assert(row_matches_entry(orig, r_before[t], acc_prev[t]));
                    } else {
                        assert(acc_next[t] == i as int);
                    }
                }
                assert(filtered_prefix_ok(orig, r@, i as int + 1));
            } else {
                assert(acc_next == acc_prev);
                assert(filtered_prefix_ok(orig, r@, i as int + 1));
            }
        }
        i = i + 1;
    }
    proof {
        assert(i as int == n);
    }
    r
}

} // verus!
