//! The words that a range of cursors covers, and the text they make: what a selection or
//! an annotation highlights, what is copied and what is sent for translation.
use vstd::prelude::*;
use crate::modes::app_mode::{WordCursor, cursor_le, cursor_precedes_or_equals};
use crate::text::push_str;
use crate::text_map::text_map_cache::{CacheView, TextMapCache};

verus! {

/// The number of words of the cached map of page `p`.
pub open spec fn page_word_count(c: CacheView, p: usize) -> int {
    c.pages[p].words@.len() as int
}

/// Just past the last word of a span on a page of `n` words that runs up to word `w`
/// included (`Some(w)`, cut at the end of the page) or to the end of the page (`None`).
pub open spec fn span_end(n: int, up_to: Option<usize>) -> int {
    match up_to {
        Some(w) => if w < n {
            w + 1
        } else {
            n
        },
        None => n,
    }
}

/// The cursors of the words of page `p` from word `lo` up to `up_to`, in order; nothing
/// when the page's map is not cached.
pub open spec fn page_span(c: CacheView, p: usize, lo: int, up_to: Option<usize>) -> Seq<
    WordCursor,
> {
    if c.pages.contains_key(p) && lo < span_end(page_word_count(c, p), up_to) {
        Seq::new(
            (span_end(page_word_count(c, p), up_to) - lo) as nat,
            |k: int| WordCursor { page_index: p, word_index: (lo + k) as usize },
        )
    } else {
        Seq::empty()
    }
}

/// The cursors of all the words of the pages from `a` up to `b` (excluded), in order.
pub open spec fn whole_pages(c: CacheView, a: int, b: int) -> Seq<WordCursor>
    decreases b - a,
{
    if b <= a {
        Seq::empty()
    } else {
        whole_pages(c, a, b - 1) + page_span(c, (b - 1) as usize, 0, None)
    }
}

/// The words from `first` to `last`. On one page: from `first`'s word to `last`'s. Across
/// pages: `first`'s page from its word to the end, every page in between, and `last`'s
/// page up to its word. Pages whose map is not cached contribute nothing.
pub open spec fn words_between(c: CacheView, first: WordCursor, last: WordCursor) -> Seq<
    WordCursor,
> {
    if first.page_index == last.page_index {
        page_span(c, first.page_index, first.word_index as int, Some(last.word_index))
    } else {
        page_span(c, first.page_index, first.word_index as int, None) + whole_pages(
            c,
            first.page_index + 1,
            last.page_index as int,
        ) + page_span(c, last.page_index, 0, Some(last.word_index))
    }
}

/// Two cursors in document order.
pub open spec fn in_order(a: WordCursor, b: WordCursor) -> (WordCursor, WordCursor) {
    if cursor_le(a, b) {
        (a, b)
    } else {
        (b, a)
    }
}

/// The words a selection between two cursors covers, whichever comes first.
pub open spec fn selection_words(c: CacheView, a: WordCursor, b: WordCursor) -> Seq<WordCursor> {
    words_between(c, in_order(a, b).0, in_order(a, b).1)
}

/// The cursor points at a word of a cached page.
pub open spec fn valid_cursor(c: CacheView, w: WordCursor) -> bool {
    c.pages.contains_key(w.page_index) && w.word_index < page_word_count(c, w.page_index)
}

/// The text of the word a valid cursor points at.
pub open spec fn word_text(c: CacheView, w: WordCursor) -> Seq<char> {
    c.pages[w.page_index].words@[w.word_index as int].text@
}

/// The characters between the word a valid cursor points at and the word before it.
pub open spec fn gap_before(c: CacheView, w: WordCursor) -> Seq<char> {
    match c.pages[w.page_index].words@[w.word_index as int].surround_left {
        Some(s) => s@,
        None => Seq::empty(),
    }
}

/// The texts of the words, separated by `sep`.
pub open spec fn joined_text(c: CacheView, ws: Seq<WordCursor>, sep: Seq<char>) -> Seq<char>
    decreases ws.len(),
{
    if ws.len() == 0 {
        Seq::empty()
    } else if ws.len() == 1 {
        word_text(c, ws[0])
    } else {
        joined_text(c, ws.drop_last(), sep) + sep + word_text(c, ws.last())
    }
}

/// The texts of the words one after the other; with `gaps`, each word but the first is
/// preceded by the characters that stood before it on the page.
pub open spec fn copied_text(c: CacheView, ws: Seq<WordCursor>, gaps: bool) -> Seq<char>
    decreases ws.len(),
{
    if ws.len() == 0 {
        Seq::empty()
    } else {
        copied_text(c, ws.drop_last(), gaps) + (if gaps && ws.len() > 1 {
            gap_before(c, ws.last())
        } else {
            Seq::empty()
        }) + word_text(c, ws.last())
    }
}

/// Every cursor of a span points at a word of a cached page.
pub proof fn lemma_page_span_valid(c: CacheView, p: usize, lo: int, up_to: Option<usize>)
    requires
        0 <= lo,
    ensures
        forall|k: int|
            0 <= k < page_span(c, p, lo, up_to).len() ==> valid_cursor(
                c,
                #[trigger] page_span(c, p, lo, up_to)[k],
            ),
{
}

/// Every cursor of a run of whole pages points at a word of a cached page.
pub proof fn lemma_whole_pages_valid(c: CacheView, a: int, b: int)
    requires
        0 <= a,
        b <= usize::MAX + 1,
    ensures
        forall|k: int|
            0 <= k < whole_pages(c, a, b).len() ==> valid_cursor(
                c,
                #[trigger] whole_pages(c, a, b)[k],
            ),
    decreases b - a,
{
    if b > a {
        lemma_whole_pages_valid(c, a, b - 1);
        lemma_page_span_valid(c, (b - 1) as usize, 0, None);
        let l = whole_pages(c, a, b - 1);
        let r = page_span(c, (b - 1) as usize, 0, None);
        assert forall|k: int| 0 <= k < whole_pages(c, a, b).len() implies valid_cursor(
            c,
            #[trigger] whole_pages(c, a, b)[k],
        ) by {
            if k < l.len() {
                assert(whole_pages(c, a, b)[k] == l[k]);
            } else {
                assert(whole_pages(c, a, b)[k] == r[k - l.len()]);
            }
        }
    }
}

/// Every cursor between two cursors points at a word of a cached page.
pub proof fn lemma_words_between_valid(c: CacheView, first: WordCursor, last: WordCursor)
    ensures
        forall|k: int|
            0 <= k < words_between(c, first, last).len() ==> valid_cursor(
                c,
                #[trigger] words_between(c, first, last)[k],
            ),
{
    lemma_page_span_valid(c, first.page_index, first.word_index as int, Some(last.word_index));
    if first.page_index != last.page_index {
        let s1 = page_span(c, first.page_index, first.word_index as int, None);
        let s2 = whole_pages(c, first.page_index + 1, last.page_index as int);
        let s3 = page_span(c, last.page_index, 0, Some(last.word_index));
        lemma_page_span_valid(c, first.page_index, first.word_index as int, None);
        lemma_whole_pages_valid(c, first.page_index + 1, last.page_index as int);
        lemma_page_span_valid(c, last.page_index, 0, Some(last.word_index));
        let all = words_between(c, first, last);
        assert(all == s1 + s2 + s3);
        assert forall|k: int| 0 <= k < all.len() implies valid_cursor(c, #[trigger] all[k]) by {
            if k < s1.len() {
                assert(all[k] == s1[k]);
            } else if k < s1.len() + s2.len() {
                assert(all[k] == s2[k - s1.len()]);
            } else {
                assert(all[k] == s3[k - s1.len() - s2.len()]);
            }
        }
    }
}

/// A selection covers the same words whichever of its ends is given first.
pub proof fn lemma_selection_symmetric(c: CacheView, a: WordCursor, b: WordCursor)
    ensures
        selection_words(c, a, b) == selection_words(c, b, a),
{
}

/// A selection from a word to itself covers that word alone, and its copied and its
/// translated text are the word's text.
pub proof fn lemma_single_word_selection(c: CacheView, a: WordCursor, gaps: bool, sep: Seq<char>)
    requires
        valid_cursor(c, a),
    ensures
        selection_words(c, a, a) == seq![a],
        copied_text(c, selection_words(c, a, a), gaps) == word_text(c, a),
        joined_text(c, selection_words(c, a, a), sep) == word_text(c, a),
{
    let s = selection_words(c, a, a);
    assert(s =~= seq![a]);
    assert(s.drop_last() =~= Seq::<WordCursor>::empty());
    assert(copied_text(c, s.drop_last(), gaps) =~= Seq::<char>::empty());
    assert(copied_text(c, s, gaps) =~= word_text(c, a));
}

proof fn lemma_page_span_contains(c: CacheView, p: usize, lo: int, up_to: Option<usize>, w: WordCursor)
    requires
        0 <= lo,
        w.page_index == p,
        valid_cursor(c, w),
        lo <= w.word_index < span_end(page_word_count(c, p), up_to),
    ensures
        page_span(c, p, lo, up_to).contains(w),
{
    let s = page_span(c, p, lo, up_to);
    assert(s[w.word_index - lo] == w);
}

proof fn lemma_page_span_members(c: CacheView, p: usize, lo: int, up_to: Option<usize>, w: WordCursor)
    requires
        0 <= lo,
        page_span(c, p, lo, up_to).contains(w),
    ensures
        w.page_index == p,
        lo <= w.word_index < span_end(page_word_count(c, p), up_to),
{
    let s = page_span(c, p, lo, up_to);
    let k = choose|k: int| 0 <= k < s.len() && s[k] == w;
    assert(c.pages[p].words.len() == c.pages[p].words@.len());
    assert(s[k] == w);
}

proof fn lemma_whole_pages_contains(c: CacheView, a: int, b: int, w: WordCursor)
    requires
        0 <= a <= w.page_index < b <= usize::MAX + 1,
        valid_cursor(c, w),
    ensures
        whole_pages(c, a, b).contains(w),
    decreases b - a,
{
    let l = whole_pages(c, a, b - 1);
    let r = page_span(c, (b - 1) as usize, 0, None);
    assert(whole_pages(c, a, b) == l + r);
    if w.page_index == b - 1 {
        lemma_page_span_contains(c, (b - 1) as usize, 0, None, w);
        let k = choose|k: int| 0 <= k < r.len() && r[k] == w;
        assert((l + r)[l.len() + k] == w);
    } else {
        lemma_whole_pages_contains(c, a, b - 1, w);
        let k = choose|k: int| 0 <= k < l.len() && l[k] == w;
        assert((l + r)[k] == w);
    }
}

proof fn lemma_whole_pages_members(c: CacheView, a: int, b: int, w: WordCursor)
    requires
        0 <= a,
        b <= usize::MAX + 1,
        whole_pages(c, a, b).contains(w),
    ensures
        a <= w.page_index < b,
    decreases b - a,
{
    if b > a {
        let l = whole_pages(c, a, b - 1);
        let r = page_span(c, (b - 1) as usize, 0, None);
        let all = whole_pages(c, a, b);
        assert(all == l + r);
        let k = choose|k: int| 0 <= k < all.len() && all[k] == w;
        if k < l.len() {
            assert(l[k] == w);
            lemma_whole_pages_members(c, a, b - 1, w);
        } else {
            assert(r[k - l.len()] == w);
            lemma_page_span_members(c, (b - 1) as usize, 0, None, w);
        }
    } else {
        assert(whole_pages(c, a, b).len() == 0);
    }
}

/// The words from `first` to `last`, for `first` not after `last` (as an annotation is
/// stored), are exactly the words of cached pages that lie, in document order, between
/// the two (both included).
pub proof fn lemma_range_covers_between(c: CacheView, first: WordCursor, last: WordCursor, w: WordCursor)
    requires
        cursor_le(first, last),
        valid_cursor(c, w),
    ensures
        words_between(c, first, last).contains(w) <==> (cursor_le(first, w) && cursor_le(w, last)),
{
    let sel = words_between(c, first, last);
    if first.page_index == last.page_index {
        if sel.contains(w) {
            lemma_page_span_members(c, first.page_index, first.word_index as int, Some(last.word_index), w);
        }
        if cursor_le(first, w) && cursor_le(w, last) {
            lemma_page_span_contains(c, first.page_index, first.word_index as int, Some(last.word_index), w);
        }
    } else {
        let s1 = page_span(c, first.page_index, first.word_index as int, None);
        let s2 = whole_pages(c, first.page_index + 1, last.page_index as int);
        let s3 = page_span(c, last.page_index, 0, Some(last.word_index));
        assert(sel == s1 + s2 + s3);
        if sel.contains(w) {
            let k = choose|k: int| 0 <= k < sel.len() && sel[k] == w;
            if k < s1.len() {
                assert(s1[k] == w);
                lemma_page_span_members(c, first.page_index, first.word_index as int, None, w);
            } else if k < s1.len() + s2.len() {
                assert(s2[k - s1.len()] == w);
                lemma_whole_pages_members(c, first.page_index + 1, last.page_index as int, w);
            } else {
                assert(s3[k - s1.len() - s2.len()] == w);
                lemma_page_span_members(c, last.page_index, 0, Some(last.word_index), w);
            }
        }
        if cursor_le(first, w) && cursor_le(w, last) {
            if w.page_index == first.page_index {
                lemma_page_span_contains(c, first.page_index, first.word_index as int, None, w);
                let k = choose|k: int| 0 <= k < s1.len() && s1[k] == w;
                assert((s1 + s2 + s3)[k] == w);
            } else if w.page_index == last.page_index {
                lemma_page_span_contains(c, last.page_index, 0, Some(last.word_index), w);
                let k = choose|k: int| 0 <= k < s3.len() && s3[k] == w;
                assert((s1 + s2 + s3)[s1.len() + s2.len() + k] == w);
            } else {
                lemma_whole_pages_contains(c, first.page_index + 1, last.page_index as int, w);
                let k = choose|k: int| 0 <= k < s2.len() && s2[k] == w;
                assert((s1 + s2 + s3)[s1.len() + k] == w);
            }
        }
    }
}

/// A selection covers exactly the words of cached pages that lie, in document order,
/// between its two ends (both included), whichever end is given first.
pub proof fn lemma_selection_covers_between(c: CacheView, a: WordCursor, b: WordCursor, w: WordCursor)
    requires
        valid_cursor(c, w),
    ensures
        selection_words(c, a, b).contains(w) <==> (cursor_le(in_order(a, b).0, w) && cursor_le(
            w,
            in_order(a, b).1,
        )),
{
    lemma_range_covers_between(c, in_order(a, b).0, in_order(a, b).1, w);
}

/// Appends the cursors of `page_span(p, lo, up_to)`.
fn push_page_span(
    out: &mut Vec<WordCursor>,
    cache: &TextMapCache,
    p: usize,
    lo: usize,
    up_to: Option<usize>,
)
    ensures
        final(out)@ == old(out)@ + page_span(cache@, p, lo as int, up_to),
{
    match cache.get(p) {
        None => {},
        Some(map) => {
            let n = map.word_count();
            let hi = match up_to {
                Some(w) => if w < n {
                    w + 1
                } else {
                    n
                },
                None => n,
            };
            if lo < hi {
                let ghost start = out@;
                let mut i = lo;
                while i < hi
                    invariant
                        lo <= i <= hi,
                        out@ == start + Seq::new(
                            (i - lo) as nat,
                            |k: int| WordCursor { page_index: p, word_index: (lo + k) as usize },
                        ),
                    decreases hi - i,
                {
                    out.push(WordCursor::new(p, i));
                    assert(out@ =~= start + Seq::new(
                        (i + 1 - lo) as nat,
                        |k: int| WordCursor { page_index: p, word_index: (lo + k) as usize },
                    ));
                    i = i + 1;
                }
                assert(out@ =~= old(out)@ + page_span(cache@, p, lo as int, up_to));
            }
        },
    }
}

/// The words from `first` to `last`, as `words_between` says: those an annotation from
/// `first` to `last` highlights.
pub fn words_in_range(cache: &TextMapCache, first: WordCursor, last: WordCursor) -> (r: Vec<
    WordCursor,
>)
    ensures
        r@ == words_between(cache@, first, last),
{
    let mut out: Vec<WordCursor> = Vec::new();
    if first.page_index == last.page_index {
        push_page_span(&mut out, cache, first.page_index, first.word_index, Some(last.word_index));
        return out;
    }
    push_page_span(&mut out, cache, first.page_index, first.word_index, None);
    let ghost head = out@;
    if first.page_index < last.page_index {
        let mut p = first.page_index + 1;
        assert(whole_pages(cache@, first.page_index + 1, p as int) =~= Seq::<WordCursor>::empty());
        while p < last.page_index
            invariant
                first.page_index + 1 <= p <= last.page_index,
                out@ == head + whole_pages(cache@, first.page_index + 1, p as int),
            decreases last.page_index - p,
        {
            push_page_span(&mut out, cache, p, 0, None);
            assert(out@ =~= head + whole_pages(cache@, first.page_index + 1, p + 1));
            p = p + 1;
        }
    } else {
        assert(whole_pages(cache@, first.page_index + 1, last.page_index as int)
            =~= Seq::<WordCursor>::empty());
        assert(out@ =~= head + whole_pages(cache@, first.page_index + 1, last.page_index as int));
    }
    push_page_span(&mut out, cache, last.page_index, 0, Some(last.word_index));
    assert(out@ =~= words_between(cache@, first, last));
    out
}

/// Two cursors in document order.
pub fn order_cursors(a: WordCursor, b: WordCursor) -> (r: (WordCursor, WordCursor))
    ensures
        r == in_order(a, b),
{
    if cursor_precedes_or_equals(a, b) {
        (a, b)
    } else {
        (b, a)
    }
}

/// The words a selection between `a` and `b` highlights, in document order.
pub fn selected_words(cache: &TextMapCache, a: WordCursor, b: WordCursor) -> (r: Vec<WordCursor>)
    ensures
        r@ == selection_words(cache@, a, b),
{
    let (first, last) = order_cursors(a, b);
    words_in_range(cache, first, last)
}

/// The text of the word a cursor points at.
fn text_of<'a>(cache: &'a TextMapCache, w: WordCursor) -> (r: &'a str)
    requires
        valid_cursor(cache@, w),
    ensures
        r@ == word_text(cache@, w),
{
    let map = cache.get(w.page_index).unwrap();
    map.words[w.word_index].text.as_str()
}

/// The characters before the word a cursor points at, or nothing.
fn gap_of<'a>(cache: &'a TextMapCache, w: WordCursor) -> (r: &'a str)
    requires
        valid_cursor(cache@, w),
    ensures
        r@ == gap_before(cache@, w),
{
    let map = cache.get(w.page_index).unwrap();
    match &map.words[w.word_index].surround_left {
        Some(s) => s.as_str(),
        None => {
            proof {
                reveal_strlit("");
            }
            ""
        },
    }
}

/// The texts of the words at valid cursors, separated by `sep`.
fn join_words(cache: &TextMapCache, ws: &Vec<WordCursor>, sep: &str) -> (r: String)
    requires
        forall|k: int| 0 <= k < ws.len() ==> valid_cursor(cache@, #[trigger] ws@[k]),
    ensures
        r@ == joined_text(cache@, ws@, sep@),
{
    let mut out = String::new();
    let mut i: usize = 0;
    while i < ws.len()
        invariant
            i <= ws.len(),
            forall|k: int| 0 <= k < ws.len() ==> valid_cursor(cache@, #[trigger] ws@[k]),
            out@ == joined_text(cache@, ws@.take(i as int), sep@),
        decreases ws.len() - i,
    {
        if i > 0 {
            push_str(&mut out, sep);
        }
        push_str(&mut out, text_of(cache, ws[i]));
        proof {
            let next = ws@.take(i + 1);
            assert(next.drop_last() =~= ws@.take(i as int));
            assert(next.last() == ws@[i as int]);
            if i == 0 {
                assert(next[0] == ws@[0]);
            }
        }
        assert(out@ =~= joined_text(cache@, ws@.take(i + 1), sep@));
        i = i + 1;
    }
    assert(ws@.take(ws.len() as int) =~= ws@);
    out
}

/// The texts of the words at valid cursors one after the other; with `gaps`, each word but
/// the first preceded by the characters before it.
fn concat_words(cache: &TextMapCache, ws: &Vec<WordCursor>, gaps: bool) -> (r: String)
    requires
        forall|k: int| 0 <= k < ws.len() ==> valid_cursor(cache@, #[trigger] ws@[k]),
    ensures
        r@ == copied_text(cache@, ws@, gaps),
{
    let mut out = String::new();
    let mut i: usize = 0;
    while i < ws.len()
        invariant
            i <= ws.len(),
            forall|k: int| 0 <= k < ws.len() ==> valid_cursor(cache@, #[trigger] ws@[k]),
            out@ == copied_text(cache@, ws@.take(i as int), gaps),
        decreases ws.len() - i,
    {
        if gaps && i > 0 {
            push_str(&mut out, gap_of(cache, ws[i]));
        }
        push_str(&mut out, text_of(cache, ws[i]));
        proof {
            let next = ws@.take(i + 1);
            assert(next.drop_last() =~= ws@.take(i as int));
            assert(next.last() == ws@[i as int]);
        }
        assert(out@ =~= copied_text(cache@, ws@.take(i + 1), gaps));
        i = i + 1;
    }
    assert(ws@.take(ws.len() as int) =~= ws@);
    out
}

/// The text sent for translation for a selection between `a` and `b`: the words' texts,
/// separated by spaces.
pub fn translation_text(cache: &TextMapCache, a: WordCursor, b: WordCursor) -> (r: String)
    ensures
        r@ == joined_text(cache@, selection_words(cache@, a, b), " "@),
{
    let ws = selected_words(cache, a, b);
    proof {
        lemma_words_between_valid(cache@, in_order(a, b).0, in_order(a, b).1);
    }
    join_words(cache, &ws, " ")
}

/// The text copied for a selection between `a` and `b`: on one page, the words with the
/// characters between them; across pages, the words' texts run together.
pub fn extract_text_range(cache: &TextMapCache, a: WordCursor, b: WordCursor) -> (r: String)
    ensures
        r@ == copied_text(
            cache@,
            selection_words(cache@, a, b),
            a.page_index == b.page_index,
        ),
{
    let ws = selected_words(cache, a, b);
    proof {
        lemma_words_between_valid(cache@, in_order(a, b).0, in_order(a, b).1);
    }
    concat_words(cache, &ws, a.page_index == b.page_index)
}

} // verus!
