//! The page view's translate mode: a first click on a word translates that word and marks
//! it; a second click on the same page translates the text from one word to the other and
//! ends the mode. Turning pointer positions into character indices is the application's
//! part.
use vstd::prelude::*;
use crate::services::pdf_text::{
    extract_word_at_index, find_word_end, find_word_start, is_text_word_char,
    lemma_run_end_prop, lemma_run_start_prop, lemma_word_at_is_maximal_run, word_at, word_run_end, word_run_start,
};
use crate::text::{chars_of, push_char, trim, trim_whitespace};

verus! {

/// A word clicked in translate mode: its page, the clicked character, and where the word
/// starts and ends in the page's text.
#[derive(Debug, Clone)]
pub struct SelectionPoint {
    pub page_index: usize,
    pub char_index: usize,
    pub word_start: usize,
    pub word_end: usize,
    pub word: String,
}

/// The start and end of the word around character `idx` of `chars`; for a character that
/// is not a word character, just past it and at it.
pub fn find_word_boundaries(chars: &Vec<char>, idx: usize) -> (r: (usize, usize))
    requires
        idx < chars.len(),
    ensures
        is_text_word_char(chars@[idx as int]) ==> r == (
            word_run_start(chars@, idx as int) as usize,
            word_run_end(chars@, idx as int) as usize,
        ),
        !is_text_word_char(chars@[idx as int]) ==> r.0 == idx + 1 && r.1 == idx,
{
    let start = find_word_start(chars, idx);
    let end = find_word_end(chars, idx);
    proof {
        if !is_text_word_char(chars@[idx as int]) {
            assert(end == idx);
        }
    }
    (start, end)
}

/// What a click in translate mode asks for: a text to translate, if any, and whether the
/// mode ends.
#[derive(Debug)]
pub struct TranslateClickOutcome {
    pub request: Option<String>,
    pub finished: bool,
}

/// The text between the marked word and the clicked one, both included: from the start of
/// whichever starts first to the end of the other.
pub open spec fn range_between(
    text: Seq<char>,
    marked_start: int,
    marked_end: int,
    start: int,
    end: int,
) -> Seq<char> {
    if marked_start <= start {
        text.subrange(marked_start, end)
    } else {
        text.subrange(start, marked_end)
    }
}

/// The word at the character lies within the text, as `word_run_start` and `word_run_end`
/// bound it.
proof fn lemma_word_run_bounds(cs: Seq<char>, i: int)
    requires
        0 <= i < cs.len(),
        is_text_word_char(cs[i]),
    ensures
        0 <= word_run_start(cs, i) <= i < word_run_end(cs, i) <= cs.len(),
{
    lemma_run_start_prop(cs, i + 1);
    lemma_run_start_prop(cs, i);
    lemma_run_end_prop(cs, i + 1);
    assert(word_run_end(cs, i) == word_run_end(cs, i + 1));
}


/// Two words of a text are either the same word or lie apart: the one that starts first
/// ends before the other starts.
proof fn lemma_words_apart(text: Seq<char>, i: int, j: int)
    requires
        word_at(text, i) is Some,
        word_at(text, j) is Some,
        word_run_start(text, i) <= word_run_start(text, j),
    ensures
        (word_run_start(text, i) == word_run_start(text, j) && word_run_end(text, i)
            == word_run_end(text, j)) || word_run_end(text, i) <= word_run_start(text, j),
{
    lemma_word_at_is_maximal_run(text, i);
    lemma_word_at_is_maximal_run(text, j);
    let (si, ei) = (word_run_start(text, i), word_run_end(text, i));
    let (sj, ej) = (word_run_start(text, j), word_run_end(text, j));
    if si < sj && sj < ei {
        assert(is_text_word_char(text[sj - 1]));
    }
    if si == sj {
        if ei < ej {
            assert(is_text_word_char(text[ei]));
        }
        if ej < ei {
            assert(is_text_word_char(text[ej]));
        }
    }
}

/// The text between two clicked words covers both words, whichever was clicked first: it
/// runs from the start of the earlier word to the end of the later one, and clicking the
/// two words the other way round asks for the same text.
pub proof fn lemma_range_covers_both_words(text: Seq<char>, i: int, j: int)
    requires
        word_at(text, i) is Some,
        word_at(text, j) is Some,
    ensures
        ({
            let (si, ei) = (word_run_start(text, i), word_run_end(text, i));
            let (sj, ej) = (word_run_start(text, j), word_run_end(text, j));
            let lo = if si <= sj { si } else { sj };
            let hi = if ei >= ej { ei } else { ej };
            &&& 0 <= lo <= i < hi <= text.len()
            &&& lo <= j < hi
            &&& range_between(text, si, ei, sj, ej) == text.subrange(lo, hi)
            &&& range_between(text, sj, ej, si, ei) == range_between(text, si, ei, sj, ej)
        }),
{
    lemma_word_at_is_maximal_run(text, i);
    lemma_word_at_is_maximal_run(text, j);
    if word_run_start(text, i) <= word_run_start(text, j) {
        lemma_words_apart(text, i, j);
    } else {
        lemma_words_apart(text, j, i);
    }
}

/// A click in translate mode on character `char_idx` of page `page_index`, whose text is
/// `full_text`, with `selection_start` the word marked by an earlier click, if any.
///
/// A click off any word changes nothing. The first click on a word marks it and asks to
/// translate it. The next click ends the mode and clears the mark; when it is on the
/// marked word's page, it asks to translate the trimmed text from one word to the other.
pub fn handle_translate_click(
    selection_start: &mut Option<SelectionPoint>,
    full_text: &str,
    page_index: usize,
    char_idx: usize,
) -> (r: TranslateClickOutcome)
    requires
        *old(selection_start) matches Some(p) ==> (p.page_index == page_index ==> p.word_start
            <= p.word_end <= full_text@.len()),
    ensures
        word_at(full_text@, char_idx as int) is None ==> {
            &&& *final(selection_start) == *old(selection_start)
            &&& r.request is None
            &&& !r.finished
        },
        word_at(full_text@, char_idx as int) matches Some(w) ==> {
            let ws = word_run_start(full_text@, char_idx as int);
            let we = word_run_end(full_text@, char_idx as int);
            match *old(selection_start) {
                None => {
                    &&& *final(selection_start) matches Some(p) && p.page_index == page_index
                        && p.char_index == char_idx && p.word_start == ws && p.word_end == we
                        && p.word@ == w
                    &&& r.request matches Some(t) && t@ == w
                    &&& !r.finished
                },
                Some(m) => {
                    &&& *final(selection_start) is None
                    &&& r.finished
                    &&& m.page_index == page_index ==> (r.request matches Some(t) && t@ == trim(
                        range_between(
                            full_text@,
                            m.word_start as int,
                            m.word_end as int,
                            ws,
                            we,
                        ),
                    ))
                    &&& m.page_index != page_index ==> r.request is None
                },
            }
        },
{
    let word_info = match extract_word_at_index(full_text, char_idx) {
        Some(w) => w,
        None => {
            return TranslateClickOutcome { request: None, finished: false };
        },
    };
    let chars = chars_of(full_text);
    proof {
        lemma_word_run_bounds(chars@, char_idx as int);
    }
    let (word_start, word_end) = find_word_boundaries(&chars, char_idx);
    match selection_start.take() {
        None => {
            let original = word_info.original;
            let copy = original.clone();
            *selection_start = Some(
                SelectionPoint {
                    page_index,
                    char_index: char_idx,
                    word_start,
                    word_end,
                    word: original,
                },
            );
            TranslateClickOutcome { request: Some(copy), finished: false }
        },
        Some(start) => {
            if start.page_index == page_index {
                let (range_start, range_end) = if start.word_start <= word_start {
                    (start.word_start, word_end)
                } else {
                    (word_start, start.word_end)
                };
                let mut text = String::new();
                let mut k = range_start;
                while k < range_end
                    invariant
                        range_start <= k <= range_end <= chars.len(),
                        text@ == chars@.subrange(range_start as int, k as int),
                    decreases range_end - k,
                {
                    push_char(&mut text, chars[k]);
                    assert(text@ =~= chars@.subrange(range_start as int, k + 1));
                    k = k + 1;
                }
                let trimmed = trim_whitespace(text.as_str());
                TranslateClickOutcome { request: Some(trimmed), finished: true }
            } else {
                TranslateClickOutcome { request: None, finished: true }
            }
        },
    }
}

/// Index `i` is the first page marked visible.
pub open spec fn is_first_visible(visible: Seq<bool>, i: int) -> bool {
    0 <= i < visible.len() && visible[i] && forall|j: int| 0 <= j < i ==> !#[trigger] visible[j]
}

/// Index `i` is the last page marked visible.
pub open spec fn is_last_visible(visible: Seq<bool>, i: int) -> bool {
    0 <= i < visible.len() && visible[i] && forall|j: int|
        i < j < visible.len() ==> !#[trigger] visible[j]
}

/// The first page marked visible, or 0 when none is.
pub open spec fn first_visible_or_zero(visible: Seq<bool>) -> int {
    if exists|i: int| is_first_visible(visible, i) {
        choose|i: int| is_first_visible(visible, i)
    } else {
        0
    }
}

/// The last page marked visible, or 0 when none is.
pub open spec fn last_visible_or_zero(visible: Seq<bool>) -> int {
    if exists|i: int| is_last_visible(visible, i) {
        choose|i: int| is_last_visible(visible, i)
    } else {
        0
    }
}

/// The range of pages to render: one page of margin on each side of the visible pages,
/// within the document.
pub open spec fn page_range_to_render(visible: Seq<bool>) -> Option<(usize, usize)> {
    if visible.len() == 0 {
        None
    } else {
        let first = first_visible_or_zero(visible);
        let last = last_visible_or_zero(visible);
        Some(
            (
                (if first >= 1 {
                    first - 1
                } else {
                    0
                }) as usize,
                (if last + 1 <= visible.len() - 1 {
                    last + 1
                } else {
                    visible.len() - 1
                }) as usize,
            ),
        )
    }
}

/// The pages to render, given which pages intersect the viewport: from one page before the
/// first visible page to one page after the last (page 0 standing in for either when none
/// is visible), within the document. None for a document without pages.
pub fn visible_page_range(visible: &Vec<bool>) -> (r: Option<(usize, usize)>)
    ensures
        r == page_range_to_render(visible@),
{
    let n = visible.len();
    if n == 0 {
        return None;
    }
    let mut first: Option<usize> = None;
    let mut last: Option<usize> = None;
    let mut k: usize = 0;
    while k < n
        invariant
            k <= n == visible.len(),
            first is None ==> forall|j: int| 0 <= j < k ==> !#[trigger] visible@[j],
            first matches Some(f) ==> is_first_visible(visible@, f as int) && f < k,
            last is None ==> first is None,
            last matches Some(l) ==> l < k && visible@[l as int] && forall|j: int|
                l < j < k ==> !#[trigger] visible@[j],
        decreases n - k,
    {
        if visible[k] {
            if first.is_none() {
                first = Some(k);
            }
            last = Some(k);
        }
        k = k + 1;
    }
    let f = match first {
        Some(f) => f,
        None => 0,
    };
    let l = match last {
        Some(l) => l,
        None => 0,
    };
    proof {
        match first {
            Some(fi) => {
                assert(is_first_visible(visible@, fi as int));
                assert forall|i: int| is_first_visible(visible@, i) implies i == fi by {
                    if i < fi {
                    } else if i > fi {
                        assert(!visible@[fi as int]);
                    }
                }
            },
            None => {
                assert(!exists|i: int| is_first_visible(visible@, i));
            },
        }
        match last {
            Some(li) => {
                assert(is_last_visible(visible@, li as int));
                assert forall|i: int| is_last_visible(visible@, i) implies i == li by {
                    if i < li {
                        assert(!visible@[li as int]);
                    }
                }
            },
            None => {
                assert(!exists|i: int| is_last_visible(visible@, i));
            },
        }
    }
    let start = if f >= 1 {
        f - 1
    } else {
        0
    };
    let end = if l + 1 <= n - 1 {
        l + 1
    } else {
        n - 1
    };
    Some((start, end))
}

/// The current page, given which pages intersect the viewport: the first visible one, or
/// the last page when none is; none for a document without pages. Page numbers are kept
/// in 16 bits, as the page list numbers them.
pub fn current_page_from_visibility(visible: &Vec<bool>) -> (r: Option<u16>)
    ensures
        visible.len() == 0 ==> r is None,
        forall|i: int| is_first_visible(visible@, i) ==> r == Some(i as u16),
        (visible.len() > 0 && forall|j: int| 0 <= j < visible.len() ==> !#[trigger] visible@[j])
            ==> r == Some((visible.len() - 1) as u16),
{
    let mut k: usize = 0;
    while k < visible.len()
        invariant
            k <= visible.len(),
            forall|j: int| 0 <= j < k ==> !#[trigger] visible@[j],
        decreases visible.len() - k,
    {
        if visible[k] {
            proof {
                assert forall|i: int| is_first_visible(visible@, i) implies i == k by {
                    if i > k {
                        assert(!visible@[k as int]);
                    }
                }
            }
            return Some(k as u16);
        }
        k = k + 1;
    }
    if visible.len() > 0 {
        Some((visible.len() - 1) as u16)
    } else {
        None
    }
}

} // verus!
