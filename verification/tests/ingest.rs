// Dataset ingestion rules: which decoded entries are kept and how a kept
// entry's synopsis is enriched.

use animood::load_dataset::{filter_anime_entries, filter_anime_entry};
use animood::types::{AnimeData, ImageFormat, Images};
use animood::vec_ops::SCALE;

fn full_entry(synopsis: &str) -> AnimeData {
    AnimeData {
        synopsis: Some(synopsis.to_string()),
        llm_description: Some("An enriched description.".to_string()),
        images: Some(Images {
            webp: Some(ImageFormat { large_image_url: Some("large.webp".to_string()) }),
        }),
        score: 8 * SCALE,
        members: 5000,
        favorites: 321,
    }
}

#[test]
fn accepted_entry_keeps_fields_and_enriches_synopsis() {
    let f = filter_anime_entry(7, "title".to_string(), full_entry("A story.")).unwrap();
    assert_eq!(f.anime_id, 7);
    assert_eq!(f.title, "title");
    assert_eq!(f.rich_synopsis, "A story.\n\nAn enriched description.");
    assert_eq!(f.llm_description, "An enriched description.");
    assert_eq!(f.picture, "large.webp");
    assert_eq!(f.score, 8 * SCALE);
    assert_eq!(f.members, 5000);
    assert_eq!(f.favorites, 321);
}

#[test]
fn blank_synopsis_is_dropped() {
    assert!(filter_anime_entry(1, "t".to_string(), full_entry("  \n\t ")).is_none());
}

#[test]
fn unicode_whitespace_synopsis_is_dropped() {
    // No-break space, em space, line separator, ideographic space: all
    // whitespace that `trim` removes, so the synopsis counts as blank.
    let text = "\u{A0}\u{2003}\u{2028}\u{3000}";
    assert!(filter_anime_entry(1, "t".to_string(), full_entry(text)).is_none());
}

#[test]
fn missing_synopsis_is_dropped() {
    let mut a = full_entry("x");
    a.synopsis = None;
    assert!(filter_anime_entry(1, "t".to_string(), a).is_none());
}

#[test]
fn broken_picture_chain_is_dropped() {
    let mut a = full_entry("A story.");
    a.images = Some(Images { webp: Some(ImageFormat { large_image_url: None }) });
    assert!(filter_anime_entry(1, "t".to_string(), a).is_none());
    let mut b = full_entry("A story.");
    b.images = None;
    assert!(filter_anime_entry(1, "t".to_string(), b).is_none());
}

#[test]
fn missing_description_is_dropped() {
    let mut a = full_entry("A story.");
    a.llm_description = None;
    assert!(filter_anime_entry(1, "t".to_string(), a).is_none());
}

#[test]
fn batch_filter_keeps_order_of_accepted_entries() {
    let mut blank = full_entry(" ");
    blank.score = 0;
    let entries = vec![
        (1, "one".to_string(), full_entry("First.")),
        (2, "two".to_string(), blank),
        (3, "three".to_string(), full_entry("Third.")),
    ];
    let kept = filter_anime_entries(entries);
    assert_eq!(kept.len(), 2);
    assert_eq!(kept[0].anime_id, 1);
    assert_eq!(kept[0].title, "one");
    assert_eq!(kept[1].anime_id, 3);
    assert_eq!(kept[1].rich_synopsis, "Third.\n\nAn enriched description.");
}
