use vstd::prelude::*;
use crate::text::{first_char, lowercase_first, spec_lowercase_first};
use crate::text_map::page_text_map::{PageTextMap, abs_diff, abs_int, lemma_line_in_range, views};
use crate::text_map::text_map_cache::{CacheView, TextMapCache, cache_wf};

verus! {

/// Direction of a cursor move.
#[derive(Debug, Clone, Copy, PartialEq, Eq, Structural)]
pub enum NavDirection {
    /// Previous word in reading order (h).
    Left,
    /// Next word in reading order (l).
    Right,
    /// Nearest word on the line above (k).
    Up,
    /// Nearest word on the line below (j).
    Down,
}

/// A position reached by a move.
#[derive(Debug, Clone, Copy, PartialEq, Eq, Structural)]
pub struct NavResult {
    pub page_index: usize,
    pub line_index: usize,
    pub word_index: usize,
}

/// Word `i` of line `line` is, among the words of the line, the first one whose horizontal
/// centre is nearest to `x`.
pub open spec fn is_closest(m: PageTextMap, line: int, x: i64, i: int) -> bool {
    let start = m.lines@[line].word_start as int;
    let end = m.lines@[line].word_end as int;
    &&& start <= i < end
    &&& forall|j: int|
        start <= j < end ==> abs_int(m.words@[i].center_x - x) <= abs_int(
            #[trigger] m.words@[j].center_x - x,
        )
    &&& forall|j: int|
        start <= j < i ==> abs_int(m.words@[i].center_x - x) < abs_int(
            #[trigger] m.words@[j].center_x - x,
        )
}

/// The word of line `line` nearest to `x` (the first of them on ties); None when the page
/// has no such line.
pub open spec fn closest_word(m: PageTextMap, line: int, x: i64) -> Option<usize> {
    if 0 <= line < m.lines@.len() && m.lines@[line].word_start < m.lines@[line].word_end {
        Some(choose|i: usize| is_closest(m, line, x, i as int))
    } else {
        None
    }
}

proof fn lemma_closest_unique(m: PageTextMap, line: int, x: i64, i: int, j: int)
    requires
        is_closest(m, line, x, i),
        is_closest(m, line, x, j),
    ensures
        i == j,
{
    if i < j {
        assert(abs_int(m.words@[j].center_x - x) < abs_int(m.words@[i].center_x - x));
    } else if j < i {
        assert(abs_int(m.words@[i].center_x - x) < abs_int(m.words@[j].center_x - x));
    }
}

/// The result of moving from word `word` of page `page` in direction `dir`, reading the
/// cached text maps: None when the page or the word is not there, or when there is nowhere
/// to go.
pub open spec fn nav_spec(c: CacheView, page: usize, word: usize, dir: NavDirection) -> Option<
    NavResult,
> {
    if !c.pages.contains_key(page) || word >= c.pages[page].words.len() {
        None
    } else {
        let m = c.pages[page];
        let line = m.words@[word as int].line_index;
        let x = m.words@[word as int].center_x;
        match dir {
            NavDirection::Left => if word > 0 {
                Some(
                    NavResult {
                        page_index: page,
                        line_index: m.words@[word - 1].line_index,
                        word_index: (word - 1) as usize,
                    },
                )
            } else if page > 0 && c.pages.contains_key((page - 1) as usize) && c.pages[(page
                - 1) as usize].words.len() > 0 {
                let prev = c.pages[(page - 1) as usize];
                Some(
                    NavResult {
                        page_index: (page - 1) as usize,
                        line_index: (prev.lines.len() - 1) as usize,
                        word_index: (prev.words.len() - 1) as usize,
                    },
                )
            } else {
                None
            },
            NavDirection::Right => if word + 1 < m.words.len() {
                Some(
                    NavResult {
                        page_index: page,
                        line_index: m.words@[word + 1].line_index,
                        word_index: (word + 1) as usize,
                    },
                )
            } else if page + 1 < c.page_count && c.pages.contains_key((page + 1) as usize)
                && c.pages[(page + 1) as usize].words.len() > 0 {
                Some(NavResult { page_index: (page + 1) as usize, line_index: 0, word_index: 0 })
            } else {
                None
            },
            NavDirection::Up => if line > 0 {
                match closest_word(m, line - 1, x) {
                    Some(i) => Some(
                        NavResult {
                            page_index: page,
                            line_index: (line - 1) as usize,
                            word_index: i,
                        },
                    ),
                    None => None,
                }
            } else if page > 0 && c.pages.contains_key((page - 1) as usize) && c.pages[(page
                - 1) as usize].lines.len() > 0 {
                let prev = c.pages[(page - 1) as usize];
                match closest_word(prev, prev.lines.len() - 1, x) {
                    Some(i) => Some(
                        NavResult {
                            page_index: (page - 1) as usize,
                            line_index: (prev.lines.len() - 1) as usize,
                            word_index: i,
                        },
                    ),
                    None => None,
                }
            } else {
                None
            },
            NavDirection::Down => if line + 1 < m.lines.len() {
                match closest_word(m, line + 1, x) {
                    Some(i) => Some(
                        NavResult {
                            page_index: page,
                            line_index: (line + 1) as usize,
                            word_index: i,
                        },
                    ),
                    None => None,
                }
            } else if page + 1 < c.page_count && c.pages.contains_key((page + 1) as usize)
                && c.pages[(page + 1) as usize].lines.len() > 0 {
                match closest_word(c.pages[(page + 1) as usize], 0, x) {
                    Some(i) => Some(
                        NavResult { page_index: (page + 1) as usize, line_index: 0, word_index: i },
                    ),
                    None => None,
                }
            } else {
                None
            },
        }
    }
}

/// The word of line `line_index` whose horizontal centre is nearest to `target_x`, the
/// first of them on ties; None when there is no such line or it has no words.
pub fn find_closest_word_on_line(text_map: &PageTextMap, line_index: usize, target_x: i64) -> (r:
    Option<usize>)
    requires
        text_map.wf(),
    ensures
        r == closest_word(*text_map, line_index as int, target_x),
{
    let range = text_map.word_indices_on_line(line_index);
    if range.start >= range.end {
        return None;
    }
    proof {
        lemma_line_in_range(text_map.words@, text_map.lines@, line_index as int);
    }
    let mut closest_idx = range.start;
    let mut closest_dist = abs_diff(text_map.words[range.start].center_x, target_x);
    let mut word_idx = range.start + 1;
    while word_idx < range.end
        invariant
            text_map.wf(),
            line_index < text_map.lines.len(),
            range.start == text_map.lines@[line_index as int].word_start,
            range.end == text_map.lines@[line_index as int].word_end,
            range.end <= text_map.words.len(),
            range.start <= closest_idx < word_idx <= range.end,
            closest_dist == abs_int(text_map.words@[closest_idx as int].center_x - target_x),
            forall|j: int|
                range.start <= j < word_idx ==> closest_dist <= abs_int(
                    #[trigger] text_map.words@[j].center_x - target_x,
                ),
            forall|j: int|
                range.start <= j < closest_idx ==> closest_dist < abs_int(
                    #[trigger] text_map.words@[j].center_x - target_x,
                ),
        decreases range.end - word_idx,
    {
        let d = abs_diff(text_map.words[word_idx].center_x, target_x);
        if d < closest_dist {
            closest_dist = d;
            closest_idx = word_idx;
        }
        word_idx = word_idx + 1;
    }
    proof {
        let m = *text_map;
        assert(is_closest(m, line_index as int, target_x, closest_idx as int));
        let c = choose|i: usize| is_closest(m, line_index as int, target_x, i as int);
        lemma_closest_unique(m, line_index as int, target_x, c as int, closest_idx as int);
    }
    Some(closest_idx)
}

/// The previous word in reading order: on the page, or the last word of the page before.
fn navigate_left(cache: &TextMapCache, current_page: usize, current_word: usize) -> (r: Option<
    NavResult,
>)
    requires
        cache.wf(),
        cache@.pages.contains_key(current_page),
        current_word < cache@.pages[current_page].words.len(),
    ensures
        r == nav_spec(cache@, current_page, current_word, NavDirection::Left),
{
    let text_map = cache.get(current_page).unwrap();
    if current_word > 0 {
        let word = text_map.get_word(current_word - 1).unwrap();
        Some(
            NavResult {
                page_index: current_page,
                line_index: word.line_index,
                word_index: current_word - 1,
            },
        )
    } else if current_page > 0 {
        match cache.get(current_page - 1) {
            Some(prev_map) => {
                if prev_map.word_count() > 0 {
                    assert(prev_map.wf());
                    Some(
                        NavResult {
                            page_index: current_page - 1,
                            line_index: prev_map.line_count() - 1,
                            word_index: prev_map.word_count() - 1,
                        },
                    )
                } else {
                    None
                }
            },
            None => None,
        }
    } else {
        None
    }
}

/// The next word in reading order: on the page, or the first word of the page after.
fn navigate_right(cache: &TextMapCache, current_page: usize, current_word: usize) -> (r: Option<
    NavResult,
>)
    requires
        cache.wf(),
        cache@.pages.contains_key(current_page),
        current_word < cache@.pages[current_page].words.len(),
    ensures
        r == nav_spec(cache@, current_page, current_word, NavDirection::Right),
{
    let text_map = cache.get(current_page).unwrap();
    let word_count = text_map.word_count();
    if current_word < word_count - 1 {
        let word = text_map.get_word(current_word + 1).unwrap();
        Some(
            NavResult {
                page_index: current_page,
                line_index: word.line_index,
                word_index: current_word + 1,
            },
        )
    } else if current_page < cache.page_count() - 1 {
        match cache.get(current_page + 1) {
            Some(next_map) => {
                if next_map.word_count() > 0 {
                    Some(
                        NavResult {
                            page_index: current_page + 1,
                            line_index: 0,
                            word_index: 0,
                        },
                    )
                } else {
                    None
                }
            },
            None => None,
        }
    } else {
        None
    }
}

/// The word nearest horizontally on the line above: on the page, or on the last line of
/// the page before.
fn navigate_up(
    cache: &TextMapCache,
    current_page: usize,
    current_word: usize,
    current_line: usize,
    current_x: i64,
) -> (r: Option<NavResult>)
    requires
        cache.wf(),
        cache@.pages.contains_key(current_page),
        current_word < cache@.pages[current_page].words.len(),
        current_line == cache@.pages[current_page].words@[current_word as int].line_index,
        current_x == cache@.pages[current_page].words@[current_word as int].center_x,
    ensures
        r == nav_spec(cache@, current_page, current_word, NavDirection::Up),
{
    let text_map = cache.get(current_page).unwrap();
    assert(text_map.wf());
    if current_line > 0 {
        let target_line = current_line - 1;
        match find_closest_word_on_line(text_map, target_line, current_x) {
            Some(i) => Some(
                NavResult {
                    page_index: current_page,
                    line_index: target_line,
                    word_index: i,
                },
            ),
            None => None,
        }
    } else if current_page > 0 {
        match cache.get(current_page - 1) {
            Some(prev_map) => {
                if prev_map.line_count() > 0 {
                    let target_line = prev_map.line_count() - 1;
                    match find_closest_word_on_line(prev_map, target_line, current_x) {
                        Some(i) => Some(
                            NavResult {
                                page_index: current_page - 1,
                                line_index: target_line,
                                word_index: i,
                            },
                        ),
                        None => None,
                    }
                } else {
                    None
                }
            },
            None => None,
        }
    } else {
        None
    }
}

/// The word nearest horizontally on the line below: on the page, or on the first line of
/// the page after.
fn navigate_down(
    cache: &TextMapCache,
    current_page: usize,
    current_word: usize,
    current_line: usize,
    current_x: i64,
) -> (r: Option<NavResult>)
    requires
        cache.wf(),
        cache@.pages.contains_key(current_page),
        current_word < cache@.pages[current_page].words.len(),
        current_line == cache@.pages[current_page].words@[current_word as int].line_index,
        current_x == cache@.pages[current_page].words@[current_word as int].center_x,
    ensures
        r == nav_spec(cache@, current_page, current_word, NavDirection::Down),
{
    let text_map = cache.get(current_page).unwrap();
    let line_count = text_map.line_count();
    assert(text_map.wf());
    if current_line < line_count.saturating_sub(1) {
        let target_line = current_line + 1;
        match find_closest_word_on_line(text_map, target_line, current_x) {
            Some(i) => Some(
                NavResult {
                    page_index: current_page,
                    line_index: target_line,
                    word_index: i,
                },
            ),
            None => None,
        }
    } else if current_page < cache.page_count() - 1 {
        match cache.get(current_page + 1) {
            Some(next_map) => {
                if next_map.line_count() > 0 {
                    match find_closest_word_on_line(next_map, 0, current_x) {
                        Some(i) => Some(
                            NavResult {
                                page_index: current_page + 1,
                                line_index: 0,
                                word_index: i,
                            },
                        ),
                        None => None,
                    }
                } else {
                    None
                }
            },
            None => None,
        }
    } else {
        None
    }
}

/// Moves from word `current_word` of page `current_page` in `direction`, reading the
/// cached text maps (the pages around the current one must have been built); None when
/// the move is not possible.
pub fn navigate(
    cache: &TextMapCache,
    current_page: usize,
    current_word: usize,
    direction: NavDirection,
) -> (r: Option<NavResult>)
    requires
        cache.wf(),
    ensures
        r == nav_spec(cache@, current_page, current_word, direction),
{
    let text_map = match cache.get(current_page) {
        Some(m) => m,
        None => {
            return None;
        },
    };
    let word_info = match text_map.get_word(current_word) {
        Some(w) => w,
        None => {
            return None;
        },
    };
    let current_line = word_info.line_index;
    let current_x = word_info.center_x;
    match direction {
        NavDirection::Left => navigate_left(cache, current_page, current_word),
        NavDirection::Right => navigate_right(cache, current_page, current_word),
        NavDirection::Up => navigate_up(cache, current_page, current_word, current_line, current_x),
        NavDirection::Down => navigate_down(
            cache,
            current_page,
            current_word,
            current_line,
            current_x,
        ),
    }
}


/// Word `idx` of the page starts with `target`, ignoring case.
pub open spec fn starts_with_letter(m: PageTextMap, idx: int, target: char) -> bool {
    m.words@[idx].text@.len() > 0 && spec_lowercase_first(m.words@[idx].text@[0])
        == spec_lowercase_first(target)
}

/// Finds, on the line of word `current_word` of page `page_index`, the nearest word after it
/// (`forward`) or before it whose first letter is `target_char`, ignoring case.
pub fn find_word_on_line_starting_with(
    cache: &TextMapCache,
    page_index: usize,
    current_word: usize,
    target_char: char,
    forward: bool,
) -> (r: Option<NavResult>)
    requires
        cache.wf(),
    ensures
        !cache@.pages.contains_key(page_index) ==> r is None,
        cache@.pages.contains_key(page_index) && current_word >= cache@.pages[page_index].words.len()
            ==> r is None,
        ({
            let m = cache@.pages[page_index];
            let line = m.words@[current_word as int].line_index as int;
            let start = m.lines@[line].word_start as int;
            let end = m.lines@[line].word_end as int;
            cache@.pages.contains_key(page_index) && current_word < m.words.len() ==> {
                &&& forward ==> match r {
                    Some(res) => res.page_index == page_index && res.line_index == line
                        && current_word < res.word_index < end && starts_with_letter(
                        m,
                        res.word_index as int,
                        target_char,
                    ) && forall|j: int|
                        current_word < j < res.word_index ==> !#[trigger] starts_with_letter(
                            m,
                            j,
                            target_char,
                        ),
                    None => forall|j: int|
                        current_word < j < end ==> !#[trigger] starts_with_letter(m, j, target_char),
                }
                &&& !forward ==> match r {
                    Some(res) => res.page_index == page_index && res.line_index == line && start
                        <= res.word_index < current_word && starts_with_letter(
                        m,
                        res.word_index as int,
                        target_char,
                    ) && forall|j: int|
                        res.word_index < j < current_word ==> !#[trigger] starts_with_letter(
                            m,
                            j,
                            target_char,
                        ),
                    None => forall|j: int|
                        start <= j < current_word ==> !#[trigger] starts_with_letter(
                            m,
                            j,
                            target_char,
                        ),
                }
            }
        }),
{
    let text_map = match cache.get(page_index) {
        Some(m) => m,
        None => {
            return None;
        },
    };
    let current_word_info = match text_map.get_word(current_word) {
        Some(w) => w,
        None => {
            return None;
        },
    };
    let ghost m = *text_map;
    assert(m.wf());
    let line_index = current_word_info.line_index;
    proof {
        let vs = views(m.words@);
        assert(vs[current_word as int] == m.words@[current_word as int]@);
        let l = line_index as int;
        // the word's line exists and contains it
        assert(exists|l2: int|
            #![trigger m.lines@[l2]]
            0 <= l2 < m.lines@.len() && m.lines@[l2].word_start <= current_word < m.lines@[l2].word_end) by {
            lemma_word_in_some_line(m, current_word as int);
        }
        let l2 = choose|l2: int|
            #![trigger m.lines@[l2]]
            0 <= l2 < m.lines@.len() && m.lines@[l2].word_start <= current_word < m.lines@[l2].word_end;
        assert(vs[current_word as int].line_index == l2);
        assert(l == l2);
        lemma_line_in_range(m.words@, m.lines@, l);
    }
    let word_range = text_map.word_indices_on_line(line_index);
    assert(line_index < m.lines.len());
    let target_lower = lowercase_first(target_char);
    if forward {
        let mut word_idx = current_word + 1;
        while word_idx < word_range.end
            invariant
                forward,
                current_word < word_idx,
                word_range.end <= m.words.len(),
                *text_map == m,
                cache@.pages.contains_key(page_index),
                cache@.pages[page_index] == m,
                current_word < m.words.len(),
                line_index == m.words@[current_word as int].line_index,
                word_range.start == m.lines@[line_index as int].word_start,
                word_range.end == m.lines@[line_index as int].word_end,
                forall|j: int|
                    current_word < j < word_idx ==> !#[trigger] starts_with_letter(m, j, target_char),
                target_lower == spec_lowercase_first(target_char),
            decreases word_range.end - word_idx,
        {
            let word = &text_map.words[word_idx];
            match first_char(word.text.as_str()) {
                Some(first) => {
                    if lowercase_first(first) == target_lower {
                        assert(first == m.words@[word_idx as int].text@[0]);
                        assert(starts_with_letter(m, word_idx as int, target_char));
                        return Some(NavResult { page_index, line_index, word_index: word_idx });
                    }
                },
                None => {},
            }
            word_idx = word_idx + 1;
        }
        None
    } else {
        let mut word_idx = current_word;
        while word_idx > word_range.start
            invariant
                !forward,
                word_range.start <= word_idx <= current_word,
                current_word < m.words.len(),
                *text_map == m,
                cache@.pages.contains_key(page_index),
                cache@.pages[page_index] == m,
                line_index == m.words@[current_word as int].line_index,
                word_range.start == m.lines@[line_index as int].word_start,
                word_range.end == m.lines@[line_index as int].word_end,
                forall|j: int|
                    word_idx <= j < current_word ==> !#[trigger] starts_with_letter(m, j, target_char),
                target_lower == spec_lowercase_first(target_char),
            decreases word_idx,
        {
            let w = word_idx - 1;
            let word = &text_map.words[w];
            match first_char(word.text.as_str()) {
                Some(first) => {
                    if lowercase_first(first) == target_lower {
                        assert(first == m.words@[w as int].text@[0]);
                        assert(starts_with_letter(m, w as int, target_char));
                        return Some(NavResult { page_index, line_index, word_index: w });
                    }
                },
                None => {},
            }
            word_idx = w;
        }
        None
    }
}

/// Every word of a well-formed page lies in some line.
pub proof fn lemma_word_in_some_line(m: PageTextMap, k: int)
    requires
        m.wf(),
        0 <= k < m.words.len(),
    ensures
        exists|l: int|
            #![trigger m.lines@[l]]
            0 <= l < m.lines@.len() && m.lines@[l].word_start <= k < m.lines@[l].word_end,
{
    let lines = m.lines@;
    assert(lines.len() > 0);
    lemma_word_in_line_from(m, k, 0);
}

proof fn lemma_word_in_line_from(m: PageTextMap, k: int, l: int)
    requires
        m.wf(),
        0 <= l < m.lines@.len(),
        m.lines@[l].word_start <= k < m.words.len(),
    ensures
        exists|l2: int|
            #![trigger m.lines@[l2]]
            0 <= l2 < m.lines@.len() && m.lines@[l2].word_start <= k < m.lines@[l2].word_end,
    decreases m.lines@.len() - l,
{
    let lines = m.lines@;
    if k < lines[l].word_end {
    } else {
        if l + 1 < lines.len() {
            assert(lines[l].word_end == lines[l + 1].word_start);
            lemma_word_in_line_from(m, k, l + 1);
        } else {
            assert(lines.last().word_end == m.words.len());
        }
    }
}


proof fn lemma_first_and_last_lines(m: PageTextMap)
    requires
        m.wf(),
        m.words.len() > 0,
    ensures
        m.words@[0].line_index == 0,
        m.words@[m.words.len() - 1].line_index == m.lines.len() - 1,
{
    let vs = views(m.words@);
    let lines = m.lines@;
    assert(lines.len() > 0);
    assert(lines[0].word_start < lines[0].word_end);
    assert(vs[0].line_index == 0);
    let last = lines.len() - 1;
    assert(lines[last].word_start < lines[last].word_end);
    assert(vs[m.words.len() - 1].line_index == last);
}

/// Moving left after moving right comes back to the word one started from.
pub proof fn lemma_left_undoes_right(c: CacheView, page: usize, word: usize)
    requires
        cache_wf(c),
        nav_spec(c, page, word, NavDirection::Right) is Some,
    ensures
        ({
            let r = nav_spec(c, page, word, NavDirection::Right)->0;
            nav_spec(c, r.page_index, r.word_index, NavDirection::Left) == Some(
                NavResult {
                    page_index: page,
                    line_index: c.pages[page].words@[word as int].line_index,
                    word_index: word,
                },
            )
        }),
{
    let m = c.pages[page];
    assert(m.wf());
    if word + 1 < m.words.len() {
    } else {
        lemma_first_and_last_lines(m);
    }
}

/// Moving right after moving left comes back to the word one started from.
pub proof fn lemma_right_undoes_left(c: CacheView, page: usize, word: usize)
    requires
        cache_wf(c),
        nav_spec(c, page, word, NavDirection::Left) is Some,
    ensures
        ({
            let r = nav_spec(c, page, word, NavDirection::Left)->0;
            nav_spec(c, r.page_index, r.word_index, NavDirection::Right) == Some(
                NavResult {
                    page_index: page,
                    line_index: c.pages[page].words@[word as int].line_index,
                    word_index: word,
                },
            )
        }),
{
    let m = c.pages[page];
    assert(m.wf());
    if word > 0 {
    } else {
        lemma_first_and_last_lines(m);
        let prev = c.pages[(page - 1) as usize];
        assert(prev.wf());
        lemma_first_and_last_lines(prev);
        assert(page < c.page_count);
    }
}

/// Word `i` of the page is, among the words of its own line, one whose horizontal centre
/// is nearest to `x`.
pub open spec fn nearest_on_its_line(m: PageTextMap, i: int, x: i64) -> bool {
    &&& 0 <= i < m.words.len()
    &&& forall|j: int|
        0 <= j < m.words.len() && #[trigger] m.words@[j].line_index == m.words@[i].line_index
            ==> abs_int(m.words@[i].center_x - x) <= abs_int(m.words@[j].center_x - x)
}

/// The first of the words nearest to `x` among words `start` up to `e` of line `line`.
proof fn lemma_first_nearest(m: PageTextMap, line: int, x: i64, e: int) -> (i: int)
    requires
        m.wf(),
        0 <= line < m.lines@.len(),
        m.lines@[line].word_start < e <= m.lines@[line].word_end,
    ensures
        m.lines@[line].word_start <= i < e,
        forall|j: int|
            m.lines@[line].word_start <= j < e ==> abs_int(m.words@[i].center_x - x) <= abs_int(
                #[trigger] m.words@[j].center_x - x,
            ),
        forall|j: int|
            m.lines@[line].word_start <= j < i ==> abs_int(m.words@[i].center_x - x) < abs_int(
                #[trigger] m.words@[j].center_x - x,
            ),
    decreases e - m.lines@[line].word_start,
{
    let start = m.lines@[line].word_start as int;
    if e == start + 1 {
        start
    } else {
        let k = lemma_first_nearest(m, line, x, e - 1);
        if abs_int(m.words@[e - 1].center_x - x) < abs_int(m.words@[k].center_x - x) {
            e - 1
        } else {
            k
        }
    }
}

/// A word lies in the range of a line exactly when it names that line.
proof fn lemma_word_line_range(m: PageTextMap, j: int, line: int)
    requires
        m.wf(),
        0 <= j < m.words.len(),
        0 <= line < m.lines@.len(),
    ensures
        (m.lines@[line].word_start <= j < m.lines@[line].word_end) <==> m.words@[j].line_index
            == line,
{
    lemma_word_in_some_line(m, j);
    let l2 = choose|l: int|
        #![trigger m.lines@[l]]
        0 <= l < m.lines@.len() && m.lines@[l].word_start <= j < m.lines@[l].word_end;
    let vs = views(m.words@);
    assert(vs[j] == m.words@[j]@);
    assert(m.lines@[l2].word_start <= j < m.lines@[l2].word_end);
    assert(vs[j].line_index == l2);
    if m.lines@[line].word_start <= j < m.lines@[line].word_end {
        assert(vs[j].line_index == line);
    }
}

/// On a line of a well-formed page, the word chosen as nearest to `x` is a word of that
/// line, and no word of the line is nearer.
proof fn lemma_closest_word_props(m: PageTextMap, line: int, x: i64)
    requires
        m.wf(),
        0 <= line < m.lines@.len(),
    ensures
        closest_word(m, line, x) matches Some(i) && i < m.words.len() && m.words@[i as int].line_index
            == line && nearest_on_its_line(m, i as int, x) && m.lines@[line].word_start <= i
            < m.lines@[line].word_end,
{
    lemma_line_in_range(m.words@, m.lines@, line);
    let start = m.lines@[line].word_start as int;
    let end = m.lines@[line].word_end as int;
    let k = lemma_first_nearest(m, line, x, end);
    assert(is_closest(m, line, x, (k as usize) as int));
    let i = choose|i: usize| is_closest(m, line, x, i as int);
    assert(is_closest(m, line, x, i as int));
    lemma_word_line_range(m, i as int, line);
    assert forall|j: int|
        0 <= j < m.words.len() && #[trigger] m.words@[j].line_index == m.words@[i as int].line_index
        implies abs_int(m.words@[i as int].center_x - x) <= abs_int(m.words@[j].center_x - x) by {
        lemma_word_line_range(m, j, line);
    }
}

/// `k` (Up) goes to the line above: from a word on line `l > 0` it always moves, to the
/// line `l - 1` of the same page, earlier in reading order; from the first line it moves to
/// the last line of the page before, when that page is known and has words. Either way it
/// lands on a word of that line nearest horizontally to the word it left.
pub proof fn lemma_up_moves_to_line_above(c: CacheView, p: usize, w: usize)
    requires
        cache_wf(c),
        c.pages.contains_key(p),
        w < c.pages[p].words.len(),
    ensures
        ({
            let m = c.pages[p];
            let l = m.words@[w as int].line_index;
            let x = m.words@[w as int].center_x;
            let up = nav_spec(c, p, w, NavDirection::Up);
            &&& l > 0 ==> up is Some
            &&& (l == 0 && p > 0 && c.pages.contains_key((p - 1) as usize) && c.pages[(p
                - 1) as usize].words.len() > 0) ==> up is Some
            &&& up matches Some(r) ==> {
                &&& c.pages.contains_key(r.page_index)
                &&& r.word_index < c.pages[r.page_index].words.len()
                &&& c.pages[r.page_index].words@[r.word_index as int].line_index == r.line_index
                &&& nearest_on_its_line(c.pages[r.page_index], r.word_index as int, x)
                &&& (r.page_index == p && r.line_index + 1 == l && r.word_index < w) || (l == 0
                    && r.page_index + 1 == p && r.line_index + 1
                    == c.pages[r.page_index].lines.len())
            }
        }),
{
    let m = c.pages[p];
    assert(m.wf());
    let l = m.words@[w as int].line_index as int;
    let x = m.words@[w as int].center_x;
    lemma_word_in_some_line(m, w as int);
    let lw = choose|lw: int|
        #![trigger m.lines@[lw]]
        0 <= lw < m.lines@.len() && m.lines@[lw].word_start <= w < m.lines@[lw].word_end;
    lemma_word_line_range(m, w as int, lw);
    assert(l == lw);
    if l > 0 {
        lemma_closest_word_props(m, l - 1, x);
        assert(m.lines@[l - 1].word_end == m.lines@[l].word_start);
    } else if p > 0 && c.pages.contains_key((p - 1) as usize) {
        let prev = c.pages[(p - 1) as usize];
        assert(prev.wf());
        if prev.lines.len() > 0 {
            lemma_closest_word_props(prev, prev.lines.len() - 1, x);
        }
    }
}

/// `j` (Down) goes to the line below: from a word on any line but the last it always
/// moves, to the line `l + 1` of the same page, later in reading order; from the last line
/// it moves to the first line of the page after, when that page is known and has words.
/// Either way it lands on a word of that line nearest horizontally to the word it left.
pub proof fn lemma_down_moves_to_line_below(c: CacheView, p: usize, w: usize)
    requires
        cache_wf(c),
        c.pages.contains_key(p),
        w < c.pages[p].words.len(),
    ensures
        ({
            let m = c.pages[p];
            let l = m.words@[w as int].line_index;
            let x = m.words@[w as int].center_x;
            let down = nav_spec(c, p, w, NavDirection::Down);
            &&& l < m.lines.len()
            &&& l + 1 < m.lines.len() ==> down is Some
            &&& (l + 1 == m.lines.len() && p + 1 < c.page_count && c.pages.contains_key(
                (p + 1) as usize,
            ) && c.pages[(p + 1) as usize].words.len() > 0) ==> down is Some
            &&& down matches Some(r) ==> {
                &&& c.pages.contains_key(r.page_index)
                &&& r.word_index < c.pages[r.page_index].words.len()
                &&& c.pages[r.page_index].words@[r.word_index as int].line_index == r.line_index
                &&& nearest_on_its_line(c.pages[r.page_index], r.word_index as int, x)
                &&& (r.page_index == p && r.line_index == l + 1 && r.word_index > w) || (l + 1
                    == m.lines.len() && r.page_index == p + 1 && r.line_index == 0)
            }
        }),
{
    let m = c.pages[p];
    assert(m.wf());
    let l = m.words@[w as int].line_index as int;
    let x = m.words@[w as int].center_x;
    lemma_word_in_some_line(m, w as int);
    let lw = choose|lw: int|
        #![trigger m.lines@[lw]]
        0 <= lw < m.lines@.len() && m.lines@[lw].word_start <= w < m.lines@[lw].word_end;
    lemma_word_line_range(m, w as int, lw);
    assert(l == lw);
    if l + 1 < m.lines.len() {
        lemma_closest_word_props(m, l + 1, x);
        assert(m.lines@[l].word_end == m.lines@[l + 1].word_start);
    } else if p + 1 < c.page_count && c.pages.contains_key((p + 1) as usize) {
        let next = c.pages[(p + 1) as usize];
        assert(next.wf());
        if next.lines.len() > 0 {
            lemma_closest_word_props(next, 0, x);
        }
    }
}

} // verus!
