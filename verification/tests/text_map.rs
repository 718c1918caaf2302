use eyers::modes::app_mode::WordCursor;
use eyers::text_map::navigation::{find_word_on_line_starting_with, navigate, NavDirection};
use eyers::text_map::page_text_map::{CharData, PageTextMap};
use eyers::text_map::selection::{
    extract_text_range, order_cursors, selected_words, translation_text, words_in_range,
};
use eyers::text_map::text_map_cache::TextMapCache;
use eyers::text_map::word_info::Bounds;

/// Characters of a page whose lines are given top to bottom, each with the bottom of its
/// line; characters are 5000 units wide and 10000 high, lines start at x = 50000, and a
/// line feed separates the lines.
fn page_chars(lines: &[(&str, i32)]) -> Vec<CharData> {
    let mut out = Vec::new();
    let mut index = 0usize;
    for (k, (text, bottom)) in lines.iter().enumerate() {
        if k > 0 {
            out.push(CharData {
                ch: '\n',
                index,
                bounds: Bounds { bottom: *bottom, left: 0, top: *bottom, right: 0 },
            });
            index += 1;
        }
        for (i, ch) in text.chars().enumerate() {
            let left = 50000 + 5000 * i as i32;
            out.push(CharData {
                ch,
                index,
                bounds: Bounds { bottom: *bottom, left, top: bottom + 10000, right: left + 5000 },
            });
            index += 1;
        }
    }
    out
}

fn sample_map(page_index: usize) -> PageTextMap {
    let chars = page_chars(&[("Hello, world", 700000), ("foo bar", 680000)]);
    PageTextMap::build_from_page(&chars, page_index, 612000, 792000)
}

fn sample_cache() -> TextMapCache {
    let mut cache = TextMapCache::new(3);
    cache.insert(sample_map(0));
    cache.insert(sample_map(1));
    cache
}

#[test]
fn test_is_word_char() {
    assert!(PageTextMap::is_word_char('a'));
    assert!(PageTextMap::is_word_char('Z'));
    assert!(PageTextMap::is_word_char('5'));
    assert!(PageTextMap::is_word_char('\''));
    assert!(PageTextMap::is_word_char('-'));
    assert!(!PageTextMap::is_word_char(' '));
    assert!(!PageTextMap::is_word_char('.'));
    assert!(!PageTextMap::is_word_char(','));
}

#[test]
fn words_and_lines_of_a_page() {
    let m = sample_map(0);
    let texts: Vec<&str> = m.words.iter().map(|w| w.text.as_str()).collect();
    assert_eq!(texts, vec!["Hello", "world", "foo", "bar"]);
    assert_eq!(m.word_count(), 4);
    assert_eq!(m.line_count(), 2);
    let lines: Vec<usize> = m.words.iter().map(|w| w.line_index).collect();
    assert_eq!(lines, vec![0, 0, 1, 1]);
    assert_eq!(m.words[0].char_start, 0);
    assert_eq!(m.words[0].char_end, 5);
    assert_eq!(m.words[1].surround_left.as_deref(), Some(", "));
    assert_eq!(m.words[0].surround_left, None);
    assert_eq!(m.words[2].surround_left.as_deref(), Some("\n"));
    // The centre is kept doubled: left + right and bottom + top.
    assert_eq!(m.words[0].center_x, 50000 + 75000);
    assert_eq!(m.words[0].center_y, 700000 + 710000);
    assert_eq!(m.word_indices_on_line(1), 2..4);
    assert_eq!(m.words_on_line(1).len(), 2);
    assert_eq!(m.get_line(0).unwrap().word_count(), 2);
    assert!(m.get_word(4).is_none());
}

#[test]
fn hyphens_and_apostrophes_stay_in_words() {
    let chars = page_chars(&[("it's well-known", 700000)]);
    let m = PageTextMap::build_from_page(&chars, 0, 612000, 792000);
    let texts: Vec<&str> = m.words.iter().map(|w| w.text.as_str()).collect();
    assert_eq!(texts, vec!["it's", "well-known"]);
}

#[test]
fn lines_are_read_top_to_bottom() {
    // The lower line comes first in the page's text, but is read second.
    let chars = page_chars(&[("low", 600000), ("high", 700000)]);
    let m = PageTextMap::build_from_page(&chars, 0, 612000, 792000);
    let texts: Vec<&str> = m.words.iter().map(|w| w.text.as_str()).collect();
    assert_eq!(texts, vec!["high", "low"]);
}

#[test]
fn empty_page_has_no_words() {
    let m = PageTextMap::build_from_page(&Vec::new(), 0, 612000, 792000);
    assert_eq!(m.word_count(), 0);
    assert_eq!(m.line_count(), 0);
    assert_eq!(m.word_nearest_height(0), None);
}

#[test]
fn words_in_a_band_and_nearest_height() {
    let m = sample_map(0);
    assert_eq!(m.first_word_in_rect(695000, 685000), Some(2));
    assert_eq!(m.first_word_in_rect(800000, 790000), None);
    assert_eq!(m.word_nearest_height(2 * 686000), Some(2));
}

#[test]
fn navigation_between_words_lines_and_pages() {
    let cache = sample_cache();
    let r = navigate(&cache, 0, 0, NavDirection::Right).unwrap();
    assert_eq!((r.page_index, r.word_index), (0, 1));
    let r = navigate(&cache, 0, 0, NavDirection::Down).unwrap();
    assert_eq!((r.page_index, r.line_index, r.word_index), (0, 1, 2));
    let r = navigate(&cache, 0, 3, NavDirection::Right).unwrap();
    assert_eq!((r.page_index, r.word_index), (1, 0));
    let r = navigate(&cache, 1, 0, NavDirection::Left).unwrap();
    assert_eq!((r.page_index, r.word_index), (0, 3));
    assert!(navigate(&cache, 0, 0, NavDirection::Left).is_none());
    assert!(navigate(&cache, 2, 0, NavDirection::Left).is_none());
}

#[test]
fn left_undoes_right() {
    let cache = sample_cache();
    for word in 0..4 {
        let r = navigate(&cache, 0, word, NavDirection::Right).unwrap();
        let back = navigate(&cache, r.page_index, r.word_index, NavDirection::Left).unwrap();
        assert_eq!((back.page_index, back.word_index), (0, word));
    }
}

#[test]
fn find_letter_on_line_ignores_case() {
    let cache = sample_cache();
    let r = find_word_on_line_starting_with(&cache, 0, 0, 'W', true).unwrap();
    assert_eq!(r.word_index, 1);
    let r = find_word_on_line_starting_with(&cache, 0, 1, 'h', false).unwrap();
    assert_eq!(r.word_index, 0);
    assert!(find_word_on_line_starting_with(&cache, 0, 0, 'f', true).is_none());
}

#[test]
fn cache_tracks_built_pages() {
    let mut cache = TextMapCache::new(3);
    assert!(cache.needs_build(0));
    assert!(!cache.needs_build(3));
    cache.insert(sample_map(1));
    assert!(cache.is_cached(1));
    assert!(!cache.needs_build(1));
    assert_eq!(cache.pages_to_build(0, 10), vec![0, 2]);
    assert_eq!(cache.page_count(), 3);
    assert_eq!(cache.get(1).unwrap().page_index, 1);
    cache.clear();
    assert!(!cache.is_cached(1));
}

#[test]
fn selection_words_on_one_and_several_pages() {
    let cache = sample_cache();
    let w = selected_words(&cache, WordCursor::new(0, 3), WordCursor::new(0, 1));
    assert_eq!(w, vec![WordCursor::new(0, 1), WordCursor::new(0, 2), WordCursor::new(0, 3)]);
    let w = selected_words(&cache, WordCursor::new(1, 1), WordCursor::new(0, 2));
    assert_eq!(
        w,
        vec![
            WordCursor::new(0, 2),
            WordCursor::new(0, 3),
            WordCursor::new(1, 0),
            WordCursor::new(1, 1)
        ]
    );
    // Pages without a map contribute nothing; the range is cut at the end of a page.
    let w = words_in_range(&cache, WordCursor::new(1, 3), WordCursor::new(2, 5));
    assert_eq!(w, vec![WordCursor::new(1, 3)]);
    let w = words_in_range(&cache, WordCursor::new(0, 2), WordCursor::new(0, 99));
    assert_eq!(w, vec![WordCursor::new(0, 2), WordCursor::new(0, 3)]);
    assert_eq!(
        order_cursors(WordCursor::new(1, 0), WordCursor::new(0, 5)),
        (WordCursor::new(0, 5), WordCursor::new(1, 0))
    );
}

#[test]
fn selection_is_symmetric() {
    let cache = sample_cache();
    let a = WordCursor::new(0, 1);
    let b = WordCursor::new(1, 2);
    assert_eq!(selected_words(&cache, a, b), selected_words(&cache, b, a));
}

#[test]
fn copied_and_translated_text() {
    let cache = sample_cache();
    let a = WordCursor::new(0, 0);
    let b = WordCursor::new(0, 3);
    assert_eq!(extract_text_range(&cache, b, a), "Hello, world\nfoo bar");
    assert_eq!(translation_text(&cache, a, b), "Hello world foo bar");
    // Across pages the words are run together.
    let c = WordCursor::new(1, 0);
    assert_eq!(extract_text_range(&cache, WordCursor::new(0, 3), c), "barHello");
    assert_eq!(translation_text(&cache, WordCursor::new(0, 3), c), "bar Hello");
    // A single word gives its own text.
    assert_eq!(extract_text_range(&cache, b, b), "bar");
    assert_eq!(translation_text(&cache, b, b), "bar");
}

#[test]
fn line_centres_descend() {
    let chars = page_chars(&[("middle line", 650000), ("top", 700000), ("bottom words", 600000)]);
    let m = PageTextMap::build_from_page(&chars, 0, 612000, 792000);
    assert_eq!(m.lines.len(), 3);
    for pair in m.lines.windows(2) {
        assert!(pair[0].y_center > pair[1].y_center);
    }
}
