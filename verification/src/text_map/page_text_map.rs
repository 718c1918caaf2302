use vstd::prelude::*;
use crate::text::{is_alphanumeric, is_whitespace, push_char, spec_is_alphanumeric, spec_is_whitespace};
use crate::text_map::sorting::{
    SortKey, is_permutation_of_range, position_of, sort_indices_by_keys, sorted_by_keys,
    key_before,
};
use crate::text_map::word_info::{Bounds, LineInfo, WordInfo, WordView, centered};

verus! {

/// A character of a page as the PDF library reports it: the character, its index in the
/// page's text, and its bounds in integer page units.
#[derive(Debug, Clone, Copy, PartialEq, Eq, Structural)]
pub struct CharData {
    pub ch: char,
    pub index: usize,
    pub bounds: Bounds,
}

/// A character that belongs to a word: alphanumeric, an apostrophe or a hyphen.
pub open spec fn spec_is_word_char(c: char) -> bool {
    spec_is_alphanumeric(c) || c == '\'' || c == '-'
}

/// A character that ends the current word: whitespace or any other non-word character.
pub open spec fn ends_word(c: char) -> bool {
    spec_is_whitespace(c) || !spec_is_word_char(c)
}

pub open spec fn min_int(a: int, b: int) -> int {
    if a <= b {
        a
    } else {
        b
    }
}

pub open spec fn max_int(a: int, b: int) -> int {
    if a >= b {
        a
    } else {
        b
    }
}

/// The smallest left edge of a non-empty run of characters.
pub open spec fn run_left(run: Seq<CharData>) -> int
    decreases run.len(),
{
    if run.len() <= 1 {
        run[0].bounds.left as int
    } else {
        min_int(run_left(run.drop_last()), run.last().bounds.left as int)
    }
}

/// The largest right edge of a non-empty run of characters.
pub open spec fn run_right(run: Seq<CharData>) -> int
    decreases run.len(),
{
    if run.len() <= 1 {
        run[0].bounds.right as int
    } else {
        max_int(run_right(run.drop_last()), run.last().bounds.right as int)
    }
}

/// The smallest bottom edge of a non-empty run of characters.
pub open spec fn run_bottom(run: Seq<CharData>) -> int
    decreases run.len(),
{
    if run.len() <= 1 {
        run[0].bounds.bottom as int
    } else {
        min_int(run_bottom(run.drop_last()), run.last().bounds.bottom as int)
    }
}

/// The largest top edge of a non-empty run of characters.
pub open spec fn run_top(run: Seq<CharData>) -> int
    decreases run.len(),
{
    if run.len() <= 1 {
        run[0].bounds.top as int
    } else {
        max_int(run_top(run.drop_last()), run.last().bounds.top as int)
    }
}

/// The union of the bounds of a non-empty run of characters.
pub open spec fn run_bounds(run: Seq<CharData>) -> Bounds {
    Bounds {
        bottom: run_bottom(run) as i32,
        left: run_left(run) as i32,
        top: run_top(run) as i32,
        right: run_right(run) as i32,
    }
}

/// The word made of a non-empty run of characters, preceded by the separator characters
/// `sep`; its line is not yet known (0).
pub open spec fn word_from_run(run: Seq<CharData>, sep: Seq<char>) -> WordView {
    let b = run_bounds(run);
    WordView {
        text: run.map_values(|c: CharData| c.ch),
        char_start: run[0].index,
        char_end: (run.last().index + 1) as usize,
        bounds: b,
        center_x: (b.left + b.right) as i64,
        center_y: (b.bottom + b.top) as i64,
        line_index: 0,
        surround_left: if sep.len() > 0 {
            Some(sep)
        } else {
            None
        },
    }
}

/// The state of reading a page's characters left to right: the words finished so far,
/// the characters of the word being read, and the characters read since the last word.
pub struct ScanState {
    pub words: Seq<WordView>,
    pub run: Seq<CharData>,
    pub sep: Seq<char>,
}

/// The state after reading the characters `cs`.
pub open spec fn scan(cs: Seq<CharData>) -> ScanState
    decreases cs.len(),
{
    if cs.len() == 0 {
        ScanState { words: seq![], run: seq![], sep: seq![] }
    } else {
        let st = scan(cs.drop_last());
        let c = cs.last();
        if !ends_word(c.ch) {
            ScanState { words: st.words, run: st.run.push(c), sep: st.sep }
        } else if st.run.len() > 0 {
            ScanState {
                words: st.words.push(word_from_run(st.run, st.sep)),
                run: seq![],
                sep: seq![c.ch],
            }
        } else {
            ScanState { words: st.words, run: seq![], sep: st.sep.push(c.ch) }
        }
    }
}

/// The words of a page's characters: the maximal runs of word characters, in order.
pub open spec fn scanned_words(cs: Seq<CharData>) -> Seq<WordView> {
    let st = scan(cs);
    if st.run.len() > 0 {
        st.words.push(word_from_run(st.run, st.sep))
    } else {
        st.words
    }
}

/// No character index is the largest `usize`, so that a word's end index exists.
pub open spec fn indices_bounded(cs: Seq<CharData>) -> bool {
    forall|i: int| 0 <= i < cs.len() ==> cs[i].index < usize::MAX
}

proof fn lemma_scan_run_bounded(cs: Seq<CharData>)
    requires
        indices_bounded(cs),
    ensures
        indices_bounded(scan(cs).run),
    decreases cs.len(),
{
    if cs.len() > 0 {
        let pre = cs.drop_last();
        assert(indices_bounded(pre)) by {
            assert forall|i: int| 0 <= i < pre.len() implies pre[i].index < usize::MAX by {
                assert(pre[i] == cs[i]);
            }
        }
        lemma_scan_run_bounded(pre);
    }
}

fn string_from_chars(cs: &Vec<char>) -> (s: String)
    ensures
        s@ == cs@,
{
    let mut s = String::new();
    let mut i: usize = 0;
    while i < cs.len()
        invariant
            i <= cs.len(),
            s@ == cs@.take(i as int),
        decreases cs.len() - i,
    {
        push_char(&mut s, cs[i]);
        assert(cs@.take(i + 1) =~= cs@.take(i as int).push(cs[i as int]));
        i = i + 1;
    }
    assert(cs@.take(cs.len() as int) =~= cs@);
    s
}

/// The word made of a run of characters and the separator characters before it;
/// None for an empty run.
pub fn build_word_from_chars(chars: &Vec<CharData>, sep: &Vec<char>) -> (r: Option<WordInfo>)
    requires
        indices_bounded(chars@),
    ensures
        chars.len() == 0 ==> r is None,
        chars.len() > 0 ==> (r matches Some(w) && w@ == word_from_run(chars@, sep@) && centered(
            w@,
        )),
{
    if chars.len() == 0 {
        return None;
    }
    let mut text_chars: Vec<char> = Vec::new();
    let mut min_left: i32 = chars[0].bounds.left;
    let mut max_right: i32 = chars[0].bounds.right;
    let mut min_bottom: i32 = chars[0].bounds.bottom;
    let mut max_top: i32 = chars[0].bounds.top;
    text_chars.push(chars[0].ch);
    let mut i: usize = 1;
    while i < chars.len()
        invariant
            1 <= i <= chars.len(),
            text_chars@ == chars@.take(i as int).map_values(|c: CharData| c.ch),
            min_left == run_left(chars@.take(i as int)),
            max_right == run_right(chars@.take(i as int)),
            min_bottom == run_bottom(chars@.take(i as int)),
            max_top == run_top(chars@.take(i as int)),
        decreases chars.len() - i,
    {
        let c = chars[i];
        let ghost pre = chars@.take(i as int);
        let ghost next = chars@.take(i + 1);
        assert(next.drop_last() =~= pre);
        assert(next.last() == c);
        if c.bounds.left < min_left {
            min_left = c.bounds.left;
        }
        if c.bounds.right > max_right {
            max_right = c.bounds.right;
        }
        if c.bounds.bottom < min_bottom {
            min_bottom = c.bounds.bottom;
        }
        if c.bounds.top > max_top {
            max_top = c.bounds.top;
        }
        text_chars.push(c.ch);
        assert(text_chars@ =~= next.map_values(|c: CharData| c.ch));
        i = i + 1;
    }
    assert(chars@.take(chars.len() as int) =~= chars@);
    let text = string_from_chars(&text_chars);
    let char_start = chars[0].index;
    let char_end = chars[chars.len() - 1].index + 1;
    let bounds = Bounds::new_from_values(min_bottom, min_left, max_top, max_right);
    let surround_left = if sep.len() > 0 {
        Some(string_from_chars(sep))
    } else {
        None
    };
    Some(WordInfo::new(text, char_start, char_end, bounds, 0, surround_left))
}

/// The words of a page's characters, in the order of the characters.
pub fn extract_words(char_data: &Vec<CharData>) -> (words: Vec<WordInfo>)
    requires
        indices_bounded(char_data@),
    ensures
        words@.len() == scanned_words(char_data@).len(),
        forall|k: int| 0 <= k < words@.len() ==> #[trigger] words@[k]@ == scanned_words(
            char_data@,
        )[k],
        all_centered(views(words@)),
{
    let mut words: Vec<WordInfo> = Vec::new();
    let mut run: Vec<CharData> = Vec::new();
    let mut sep: Vec<char> = Vec::new();
    let n = char_data.len();
    let mut i: usize = 0;
    while i < n
        invariant
            n == char_data.len(),
            i <= n,
            indices_bounded(char_data@),
            words@.len() == scan(char_data@.take(i as int)).words.len(),
            forall|k: int| 0 <= k < words@.len() ==> #[trigger] words@[k]@ == scan(
                char_data@.take(i as int),
            ).words[k],
            run@ == scan(char_data@.take(i as int)).run,
            sep@ == scan(char_data@.take(i as int)).sep,
            forall|k: int| 0 <= k < words@.len() ==> #[trigger] centered(words@[k]@),
        decreases n - i,
    {
        let c = char_data[i];
        let ghost pre = char_data@.take(i as int);
        let ghost next = char_data@.take(i + 1);
        assert(next.drop_last() =~= pre);
        assert(next.last() == c);
        assert(indices_bounded(pre)) by {
            assert forall|j: int| 0 <= j < pre.len() implies pre[j].index < usize::MAX by {
                assert(pre[j] == char_data@[j]);
            }
        }
        proof {
            lemma_scan_run_bounded(pre);
        }
        if is_whitespace(c.ch) || !PageTextMap::is_word_char(c.ch) {
            if run.len() > 0 {
                let built = build_word_from_chars(&run, &sep);
                match built {
                    Some(w) => {
                        words.push(w);
                    },
                    None => {},
                }
                run.clear();
                sep.clear();
                sep.push(c.ch);
                assert(sep@ =~= seq![c.ch]);
            } else {
                sep.push(c.ch);
            }
        } else {
            run.push(c);
        }
        i = i + 1;
    }
    assert(char_data@.take(n as int) =~= char_data@);
    proof {
        lemma_scan_run_bounded(char_data@);
    }
    if run.len() > 0 {
        let built = build_word_from_chars(&run, &sep);
        match built {
            Some(w) => {
                words.push(w);
            },
            None => {},
        }
    }
    assert forall|k: int| 0 <= k < views(words@).len() implies #[trigger] centered(
        views(words@)[k],
    ) by {
        assert(centered(words@[k]@));
    }
    words
}


pub open spec fn abs_int(x: int) -> int {
    if x < 0 {
        -x
    } else {
        x
    }
}

/// The sum of the heights (top minus bottom) of the words.
pub open spec fn height_sum(ws: Seq<WordView>) -> int
    decreases ws.len(),
{
    if ws.len() == 0 {
        0
    } else {
        height_sum(ws.drop_last()) + (ws.last().bounds.top - ws.last().bounds.bottom)
    }
}

/// Keys that order words from top to bottom (larger centre first).
pub open spec fn y_keys(ws: Seq<WordView>) -> Seq<SortKey> {
    Seq::new(ws.len(), |i: int| ((-(ws[i].center_y as int)) as i128, 0i128, 0i128))
}

/// The vertical centres of the words, in the order `o`.
pub open spec fn ys_in_order(ws: Seq<WordView>, o: Seq<usize>) -> Seq<int> {
    Seq::new(o.len(), |k: int| ws[o[k] as int].center_y as int)
}

/// Line numbers along words taken from top to bottom, with the centre of the current
/// line's first word. A word joins the current line when its centre is within half the
/// mean word height of that first word's centre: |y - a| * n <= sum of heights (the
/// centres being sums of two edges, that is twice the centre); otherwise it starts the
/// next line.
pub open spec fn cluster_state(ys: Seq<int>, n: int, sum: int) -> (Seq<int>, int)
    decreases ys.len(),
{
    if ys.len() == 0 {
        (seq![], 0)
    } else {
        let prev = cluster_state(ys.drop_last(), n, sum);
        let y = ys.last();
        if prev.0.len() > 0 && abs_int(y - prev.1) * n <= sum {
            (prev.0.push(prev.0.last()), prev.1)
        } else if prev.0.len() > 0 {
            (prev.0.push(prev.0.last() + 1), y)
        } else {
            (seq![0int], y)
        }
    }
}

/// The line numbers of `cluster_state`.
pub open spec fn cluster(ys: Seq<int>, n: int, sum: int) -> Seq<int> {
    cluster_state(ys, n, sum).0
}

/// Keys that order words by line, then from left to right, then in top-to-bottom order.
pub open spec fn line_keys(ws: Seq<WordView>, lines_of: Seq<usize>, rank: Seq<usize>) -> Seq<
    SortKey,
> {
    Seq::new(
        ws.len(),
        |i: int| (lines_of[i] as i128, ws[i].center_x as i128, rank[i] as i128),
    )
}

pub open spec fn with_line(w: WordView, l: usize) -> WordView {
    WordView { line_index: l, ..w }
}

/// `new` is `old` grouped into lines and put in reading order: `o1` orders the words from
/// top to bottom (ties by index), `lines_of` gives each word the line that clustering along
/// `o1` assigns, `rank` is each word's place in `o1`, and `o2` orders the words by line,
/// then by horizontal centre, then by `rank`.
pub open spec fn arrangement(
    old: Seq<WordView>,
    new: Seq<WordView>,
    o1: Seq<usize>,
    o2: Seq<usize>,
    lines_of: Seq<usize>,
    rank: Seq<usize>,
) -> bool {
    let n = old.len();
    &&& is_permutation_of_range(o1, n)
    &&& sorted_by_keys(y_keys(old), o1)
    &&& lines_of.len() == n
    &&& rank.len() == n
    &&& forall|k: int|
        0 <= k < n ==> lines_of[o1[k] as int] == cluster(
            ys_in_order(old, o1),
            n as int,
            height_sum(old),
        )[k]
    &&& forall|k: int| 0 <= k < n ==> rank[o1[k] as int] == k
    &&& is_permutation_of_range(o2, n)
    &&& sorted_by_keys(line_keys(old, lines_of, rank), o2)
    &&& new.len() == n
    &&& forall|k: int|
        0 <= k < n ==> new[k] == with_line(old[o2[k] as int], lines_of[o2[k] as int])
}

/// `new` is `old` grouped into lines and put in reading order.
pub open spec fn arranged_into_lines(old: Seq<WordView>, new: Seq<WordView>) -> bool {
    exists|o1: Seq<usize>, o2: Seq<usize>, lines_of: Seq<usize>, rank: Seq<usize>|
        #[trigger] arrangement(old, new, o1, o2, lines_of, rank)
}

/// The sum of `center_y` of the words at positions `a` up to `b`.
pub open spec fn sum_center_y(ws: Seq<WordView>, a: int, b: int) -> int
    decreases b - a,
{
    if b <= a {
        0
    } else {
        sum_center_y(ws, a, b - 1) + ws[b - 1].center_y
    }
}

/// The lines partition the words into consecutive non-empty ranges, and the words of
/// range `l` are exactly those on line `l`.
pub open spec fn lines_cover(ws: Seq<WordView>, lines: Seq<LineInfo>) -> bool {
    &&& (ws.len() == 0 <==> lines.len() == 0)
    &&& lines.len() > 0 ==> lines[0].word_start == 0 && lines.last().word_end == ws.len()
    &&& forall|l: int| 0 <= l < lines.len() ==> #[trigger] lines[l].word_start < lines[l].word_end
    &&& forall|l: int|
        0 <= l < lines.len() - 1 ==> #[trigger] lines[l].word_end == lines[l + 1].word_start
    &&& forall|l: int, k: int|
        #![trigger lines[l], ws[k]]
        0 <= l < lines.len() && lines[l].word_start <= k < lines[l].word_end ==> ws[k].line_index
            == l
}

/// Each line's centre is the mean of its words' `center_y`, rounded down.
pub open spec fn lines_centred(ws: Seq<WordView>, lines: Seq<LineInfo>) -> bool {
    forall|l: int|
        0 <= l < lines.len() ==> #[trigger] lines[l].y_center == sum_center_y(
            ws,
            lines[l].word_start as int,
            lines[l].word_end as int,
        ) / (lines[l].word_end - lines[l].word_start)
}


/// Lines along the top-to-bottom order start at 0 and go up by at most one at each word.
proof fn lemma_cluster_steps(ys: Seq<int>, n: int, sum: int)
    ensures
        cluster(ys, n, sum).len() == ys.len(),
        ys.len() > 0 ==> cluster(ys, n, sum)[0] == 0,
        forall|k: int|
            0 <= k < ys.len() - 1 ==> (#[trigger] cluster(ys, n, sum)[k + 1] == cluster(
                ys,
                n,
                sum,
            )[k] || cluster(ys, n, sum)[k + 1] == cluster(ys, n, sum)[k] + 1),
    decreases ys.len(),
{
    if ys.len() > 0 {
        let pre = ys.drop_last();
        lemma_cluster_steps(pre, n, sum);
        let c = cluster(ys, n, sum);
        let cp = cluster(pre, n, sum);
        assert forall|k: int| 0 <= k < ys.len() - 1 implies (#[trigger] c[k + 1] == c[k] || c[k
            + 1] == c[k] + 1) by {
            if k + 1 < ys.len() - 1 {
                assert(c[k + 1] == cp[k + 1] && c[k] == cp[k]);
            }
        }
    }
}

/// Every line number up to the last one is given to some word, and none is larger.
proof fn lemma_cluster_attained(ys: Seq<int>, n: int, sum: int, v: int)
    requires
        ys.len() > 0,
        0 <= v <= cluster(ys, n, sum).last(),
    ensures
        exists|k: int| 0 <= k < ys.len() && #[trigger] cluster(ys, n, sum)[k] == v,
    decreases ys.len(),
{
    lemma_cluster_steps(ys, n, sum);
    let c = cluster(ys, n, sum);
    if ys.len() == 1 {
        assert(c[0] == v);
    } else {
        let pre = ys.drop_last();
        lemma_cluster_steps(pre, n, sum);
        let cp = cluster(pre, n, sum);
        assert(c.last() == cp.last() || c.last() == cp.last() + 1);
        if v == c.last() {
            assert(c[ys.len() - 1] == v);
        } else {
            lemma_cluster_attained(pre, n, sum, v);
            let k = choose|k: int| 0 <= k < pre.len() && #[trigger] cp[k] == v;
            assert(c[k] == v);
        }
    }
}

/// Line numbers never decrease along the top-to-bottom order.
proof fn lemma_cluster_monotone(ys: Seq<int>, n: int, sum: int)
    ensures
        forall|a: int, b: int|
            0 <= a <= b < ys.len() ==> 0 <= #[trigger] cluster(ys, n, sum)[a] <= #[trigger] cluster(
                ys,
                n,
                sum,
            )[b],
    decreases ys.len(),
{
    lemma_cluster_steps(ys, n, sum);
    if ys.len() > 0 {
        let pre = ys.drop_last();
        lemma_cluster_monotone(pre, n, sum);
        lemma_cluster_steps(pre, n, sum);
        let c = cluster(ys, n, sum);
        let cp = cluster(pre, n, sum);
        assert forall|a: int, b: int| 0 <= a <= b < ys.len() implies 0 <= #[trigger] c[a]
            <= #[trigger] c[b] by {
            if b < ys.len() - 1 {
                assert(c[a] == cp[a] && c[b] == cp[b]);
            } else if a < b {
                assert(c[a] == cp[a]);
                assert(cp[a] <= cp[b - 1]);
                assert(c[b - 1] == cp[b - 1]);
            } else {
                if ys.len() > 1 {
                    assert(cp[0] <= cp[b - 1]);
                    assert(c[b - 1] == cp[b - 1]);
                }
            }
        }
    }
}


/// After arranging, line numbers in reading order start at 0 and go up by at most one.
proof fn lemma_arranged_lines_consecutive(
    old: Seq<WordView>,
    new: Seq<WordView>,
    o1: Seq<usize>,
    o2: Seq<usize>,
    lines_of: Seq<usize>,
    rank: Seq<usize>,
)
    requires
        arrangement(old, new, o1, o2, lines_of, rank),
        old.len() > 0,
    ensures
        new[0].line_index == 0,
        forall|k: int|
            0 <= k < new.len() - 1 ==> (#[trigger] new[k + 1].line_index == new[k].line_index
                || new[k + 1].line_index == new[k].line_index + 1),
        forall|a: int, b: int|
            0 <= a <= b < new.len() ==> #[trigger] new[a].line_index <= #[trigger] new[b].line_index,
{
    let n = old.len();
    let ys = ys_in_order(old, o1);
    let c = cluster(ys, n as int, height_sum(old));
    lemma_cluster_steps(ys, n as int, height_sum(old));
    lemma_cluster_monotone(ys, n as int, height_sum(old));
    let keys = line_keys(old, lines_of, rank);
    assert forall|a: int, b: int| 0 <= a <= b < new.len() implies #[trigger] new[a].line_index
        <= #[trigger] new[b].line_index by {
        if a < b {
            assert(key_before(keys, o2[a] as int, o2[b] as int));
        }
    }
    assert forall|i: int| 0 <= i < n implies #[trigger] lines_of[i] <= c.last() by {
        assert(is_permutation_of_range(o1, n));
        let q = position_of(o1, i);
        assert(0 <= q < n && o1[q] == i);
        assert(lines_of[o1[q] as int] == c[q]);
        assert(c[q] <= c[n - 1]);
    }
    // the first word is on line 0
    let i0 = o1[0] as int;
    assert(lines_of[i0] == c[0]);
    assert(is_permutation_of_range(o2, n));
    assert(is_permutation_of_range(o1, n));
    assert(0 <= i0 < n);
    let p0 = position_of(o2, i0);
    assert(0 <= p0 < n && o2[p0] == i0);
    assert(new[p0].line_index == 0);
    assert(new[0].line_index <= new[p0].line_index);
    assert forall|k: int| 0 <= k < new.len() - 1 implies (#[trigger] new[k + 1].line_index
        == new[k].line_index || new[k + 1].line_index == new[k].line_index + 1) by {
        let lk = new[k].line_index as int;
        let lk1 = new[k + 1].line_index as int;
        assert(lk <= lk1);
        if lk1 > lk + 1 {
            let v = lk + 1;
            assert(lk1 == lines_of[o2[k + 1] as int]);
            assert(v <= c.last());
            lemma_cluster_attained(ys, n as int, height_sum(old), v);
            let q = choose|q: int| 0 <= q < ys.len() && #[trigger] c[q] == v;
            let i = o1[q] as int;
            assert(lines_of[i] == v);
            assert(is_permutation_of_range(o2, n));
            let p = position_of(o2, i);
            assert(0 <= p < n && o2[p] == i);
            assert(new[p].line_index == v);
            if p <= k {
                assert(new[p].line_index <= new[k].line_index);
            } else {
                assert(new[k + 1].line_index <= new[p].line_index);
            }
        }
    }
}


/// No word is upside down: its top is not below its bottom.
pub open spec fn upright(ws: Seq<WordView>) -> bool {
    forall|k: int| 0 <= k < ws.len() ==> #[trigger] ws[k].bounds.top >= ws[k].bounds.bottom
}

/// Each line's centre lies strictly above the next line's.
pub open spec fn lines_descend(lines: Seq<LineInfo>) -> bool {
    forall|l: int| 0 <= l < lines.len() - 1 ==> #[trigger] lines[l].y_center > lines[l + 1].y_center
}

/// No character is upside down: its top is not below its bottom.
pub open spec fn chars_upright(cs: Seq<CharData>) -> bool {
    forall|i: int| 0 <= i < cs.len() ==> #[trigger] cs[i].bounds.top >= cs[i].bounds.bottom
}

proof fn lemma_run_edges(run: Seq<CharData>)
    requires
        run.len() > 0,
    ensures
        i32::MIN <= run_bottom(run) <= run[0].bounds.bottom,
        run[0].bounds.top <= run_top(run) <= i32::MAX,
    decreases run.len(),
{
    if run.len() > 1 {
        lemma_run_edges(run.drop_last());
        assert(run.drop_last()[0] == run[0]);
    }
}

proof fn lemma_run_upright(run: Seq<CharData>)
    requires
        run.len() > 0,
        chars_upright(run),
    ensures
        run_bounds(run).top >= run_bounds(run).bottom,
{
    lemma_run_edges(run);
    assert(run[0].bounds.top >= run[0].bounds.bottom);
}

proof fn lemma_scan_upright(cs: Seq<CharData>)
    requires
        chars_upright(cs),
    ensures
        upright(scan(cs).words),
        chars_upright(scan(cs).run),
    decreases cs.len(),
{
    if cs.len() > 0 {
        let pre = cs.drop_last();
        assert forall|i: int| 0 <= i < pre.len() implies #[trigger] pre[i].bounds.top
            >= pre[i].bounds.bottom by {
            assert(pre[i] == cs[i]);
        }
        lemma_scan_upright(pre);
        let st = scan(pre);
        let c = cs.last();
        assert(c == cs[cs.len() - 1]);
        if !ends_word(c.ch) {
            let r = st.run.push(c);
            assert forall|i: int| 0 <= i < r.len() implies #[trigger] r[i].bounds.top
                >= r[i].bounds.bottom by {
                if i < st.run.len() {
                    assert(r[i] == st.run[i]);
                }
            }
        } else if st.run.len() > 0 {
            lemma_run_upright(st.run);
            let w = st.words.push(word_from_run(st.run, st.sep));
            assert forall|k: int| 0 <= k < w.len() implies #[trigger] w[k].bounds.top
                >= w[k].bounds.bottom by {
                if k < st.words.len() {
                    assert(w[k] == st.words[k]);
                }
            }
            assert(scan(cs).run =~= Seq::<CharData>::empty());
        }
    }
}

/// Upright characters make upright words.
proof fn lemma_scanned_upright(cs: Seq<CharData>)
    requires
        chars_upright(cs),
    ensures
        upright(scanned_words(cs)),
{
    lemma_scan_upright(cs);
    let st = scan(cs);
    if st.run.len() > 0 {
        lemma_run_upright(st.run);
        let w = st.words.push(word_from_run(st.run, st.sep));
        assert forall|k: int| 0 <= k < w.len() implies #[trigger] w[k].bounds.top
            >= w[k].bounds.bottom by {
            if k < st.words.len() {
                assert(w[k] == st.words[k]);
            }
        }
    }
}

proof fn lemma_height_sum_nonneg(ws: Seq<WordView>)
    requires
        upright(ws),
    ensures
        height_sum(ws) >= 0,
    decreases ws.len(),
{
    if ws.len() > 0 {
        let pre = ws.drop_last();
        assert forall|k: int| 0 <= k < pre.len() implies #[trigger] pre[k].bounds.top
            >= pre[k].bounds.bottom by {
            assert(pre[k] == ws[k]);
        }
        lemma_height_sum_nonneg(pre);
        assert(ws.last() == ws[ws.len() - 1]);
    }
}

/// The last word is within reach of the anchor of its line.
proof fn lemma_cluster_anchor(ys: Seq<int>, n: int, sum: int)
    requires
        n >= 0,
        sum >= 0,
    ensures
        ys.len() > 0 ==> abs_int(ys.last() - cluster_state(ys, n, sum).1) * n <= sum,
        cluster_state(ys, n, sum).0.len() == ys.len(),
    decreases ys.len(),
{
    if ys.len() > 0 {
        lemma_cluster_anchor(ys.drop_last(), n, sum);
        let y = ys.last();
        assert(abs_int(y - y) == 0);
        assert(0 * n == 0) by (nonlinear_arith);
    }
}

/// With a non-negative height sum, a word whose centre equals the previous one's stays on
/// its line.
proof fn lemma_cluster_equal_joins(ys: Seq<int>, n: int, sum: int)
    requires
        n >= 0,
        sum >= 0,
    ensures
        forall|i: int|
            0 <= i < ys.len() - 1 && ys[i + 1] == ys[i] ==> #[trigger] cluster(ys, n, sum)[i + 1]
                == cluster(ys, n, sum)[i],
    decreases ys.len(),
{
    if ys.len() > 0 {
        let pre = ys.drop_last();
        lemma_cluster_equal_joins(pre, n, sum);
        lemma_cluster_anchor(pre, n, sum);
        lemma_cluster_anchor(ys, n, sum);
        let c = cluster(ys, n, sum);
        let cp = cluster(pre, n, sum);
        assert forall|i: int| 0 <= i < ys.len() - 1 && ys[i + 1] == ys[i] implies #[trigger] c[i + 1]
            == c[i] by {
            if i + 1 < ys.len() - 1 {
                assert(pre[i] == ys[i] && pre[i + 1] == ys[i + 1]);
                assert(c[i + 1] == cp[i + 1] && c[i] == cp[i]);
            } else {
                assert(pre.last() == ys[i]);
                assert(c[i] == cp[i]);
            }
        }
    }
}

/// Along non-increasing centres with a non-negative height sum, two words on different
/// lines have different centres.
proof fn lemma_cluster_separates(ys: Seq<int>, n: int, sum: int, a: int, b: int)
    requires
        n >= 0,
        sum >= 0,
        forall|i: int, j: int| 0 <= i <= j < ys.len() ==> #[trigger] ys[i] >= #[trigger] ys[j],
        0 <= a <= b < ys.len(),
        cluster(ys, n, sum)[a] != cluster(ys, n, sum)[b],
    ensures
        ys[a] > ys[b],
    decreases b - a,
{
    lemma_cluster_equal_joins(ys, n, sum);
    if ys[a] == ys[b] {
        assert(a < b);
        assert(ys[a] >= ys[a + 1] && ys[a + 1] >= ys[b]);
        assert(cluster(ys, n, sum)[a + 1] == cluster(ys, n, sum)[a]);
        lemma_cluster_separates(ys, n, sum, a + 1, b);
    } else {
        assert(ys[a] >= ys[b]);
    }
}

proof fn lemma_line_within(ws: Seq<WordView>, lines: Seq<LineInfo>, l: int)
    requires
        lines_cover(ws, lines),
        0 <= l < lines.len(),
    ensures
        lines[l].word_start < lines[l].word_end <= ws.len(),
    decreases lines.len() - l,
{
    if l < lines.len() - 1 {
        lemma_line_within(ws, lines, l + 1);
        assert(lines[l].word_end == lines[l + 1].word_start);
    }
}

/// A word of a range with the lowest centre.
proof fn lemma_lowest_in_range(ws: Seq<WordView>, a: int, b: int) -> (k: int)
    requires
        0 <= a < b <= ws.len(),
    ensures
        a <= k < b,
        forall|j: int| a <= j < b ==> ws[k].center_y <= #[trigger] ws[j].center_y,
    decreases b - a,
{
    if b == a + 1 {
        a
    } else {
        let k = lemma_lowest_in_range(ws, a, b - 1);
        if ws[b - 1].center_y < ws[k].center_y {
            b - 1
        } else {
            k
        }
    }
}

/// Bounds on the sum of the centres of a range.
proof fn lemma_sum_center_y_bounds(ws: Seq<WordView>, a: int, b: int, lo: int, hi: int)
    requires
        0 <= a <= b <= ws.len(),
        forall|j: int| a <= j < b ==> lo <= #[trigger] ws[j].center_y <= hi,
    ensures
        lo * (b - a) <= sum_center_y(ws, a, b) <= hi * (b - a),
    decreases b - a,
{
    if b > a {
        lemma_sum_center_y_bounds(ws, a, b - 1, lo, hi);
        assert(lo <= ws[b - 1].center_y <= hi);
        assert(lo * (b - a) == lo * (b - 1 - a) + lo) by (nonlinear_arith);
        assert(hi * (b - a) == hi * (b - 1 - a) + hi) by (nonlinear_arith);
    } else {
        assert(lo * 0 == 0 && hi * 0 == 0) by (nonlinear_arith);
    }
}

/// Grouped into lines from upright words, each line's centre lies strictly above the
/// next line's.
pub proof fn lemma_lines_descend(old: Seq<WordView>, new: Seq<WordView>, lines: Seq<LineInfo>)
    requires
        arranged_into_lines(old, new),
        lines_cover(new, lines),
        lines_centred(new, lines),
        upright(old),
    ensures
        lines_descend(lines),
{
    let (o1, o2, lines_of, rank) = choose|o1: Seq<usize>, o2: Seq<usize>, lines_of: Seq<usize>, rank: Seq<usize>|
        #[trigger] arrangement(old, new, o1, o2, lines_of, rank);
    let n = old.len();
    let sum = height_sum(old);
    lemma_height_sum_nonneg(old);
    let ys = ys_in_order(old, o1);
    let c = cluster(ys, n as int, sum);
    lemma_cluster_steps(ys, n as int, sum);
    lemma_cluster_monotone(ys, n as int, sum);
    let keys = y_keys(old);
    assert forall|i: int, j: int| 0 <= i <= j < ys.len() implies #[trigger] ys[i] >= #[trigger] ys[j] by {
        if i < j {
            assert(key_before(keys, o1[i] as int, o1[j] as int));
        }
    }
    // Any word of a line lies above any word of a later line.
    assert forall|p: int, q: int|
        0 <= p < n && 0 <= q < n && new[p].line_index < new[q].line_index implies
        #[trigger] new[p].center_y > #[trigger] new[q].center_y by {
        assert(is_permutation_of_range(o2, n));
        assert(is_permutation_of_range(o1, n));
        let ip = o2[p] as int;
        let iq = o2[q] as int;
        let kp = position_of(o1, ip);
        let kq = position_of(o1, iq);
        assert(0 <= kp < n && o1[kp] == ip);
        assert(0 <= kq < n && o1[kq] == iq);
        assert(new[p] == with_line(old[ip], lines_of[ip]));
        assert(new[q] == with_line(old[iq], lines_of[iq]));
        assert(lines_of[o1[kp] as int] == c[kp]);
        assert(lines_of[o1[kq] as int] == c[kq]);
        if kq <= kp {
            assert(c[kq] <= c[kp]);
        }
        lemma_cluster_separates(ys, n as int, sum, kp, kq);
        assert(ys[kp] == old[ip].center_y && ys[kq] == old[iq].center_y);
    }
    assert forall|l: int| 0 <= l < lines.len() - 1 implies #[trigger] lines[l].y_center
        > lines[l + 1].y_center by {
        let s1 = lines[l].word_start as int;
        let e1 = lines[l].word_end as int;
        let s2 = lines[l + 1].word_start as int;
        let e2 = lines[l + 1].word_end as int;
        assert(s1 < e1 && s2 < e2 && e1 == s2);
        assert(lines[l + 1].word_start < lines[l + 1].word_end);
        lemma_line_within(new, lines, l + 1);
        assert(e2 <= new.len());
        let k = lemma_lowest_in_range(new, s1, e1);
        let m = new[k].center_y as int;
        assert(new[k].line_index == l);
        assert forall|j: int| s2 <= j < e2 implies m - 1 >= #[trigger] new[j].center_y && new[j].center_y >= i64::MIN by {
            assert(new[j].line_index == l + 1);
        }
        assert forall|j: int| s1 <= j < e1 implies m <= #[trigger] new[j].center_y && new[j].center_y <= i64::MAX by {}
        lemma_sum_center_y_bounds(new, s1, e1, m, i64::MAX as int);
        lemma_sum_center_y_bounds(new, s2, e2, i64::MIN as int, m - 1);
        let c1 = e1 - s1;
        let c2 = e2 - s2;
        let t1 = sum_center_y(new, s1, e1);
        let t2 = sum_center_y(new, s2, e2);
        assert(t1 / c1 >= m) by (nonlinear_arith)
            requires
                c1 > 0,
                t1 >= m * c1,
        ;
        assert(t2 / c2 <= m - 1) by (nonlinear_arith)
            requires
                c2 > 0,
                t2 <= (m - 1) * c2,
        ;
    }
}

/// The abstract values of a sequence of words.
pub open spec fn views(ws: Seq<WordInfo>) -> Seq<WordView> {
    ws.map_values(|w: WordInfo| w@)
}

/// Every word's centre is that of its bounds.
pub open spec fn all_centered(ws: Seq<WordView>) -> bool {
    forall|k: int| 0 <= k < ws.len() ==> #[trigger] centered(ws[k])
}

pub open spec fn pow2_32() -> int {
    0x1_0000_0000
}

fn height_total(words: &Vec<WordInfo>) -> (hsum: i128)
    ensures
        hsum == height_sum(views(words@)),
        -(words.len() * 2 * pow2_32()) <= hsum <= words.len() * 2 * pow2_32(),
{
    let ghost v = views(words@);
    let n = words.len();
    let mut hsum: i128 = 0;
    let mut i: usize = 0;
    while i < n
        invariant
            n == words.len(),
            v == views(words@),
            i <= n,
            hsum == height_sum(v.take(i as int)),
            -(i * 2 * pow2_32()) <= hsum <= i * 2 * pow2_32(),
        decreases n - i,
    {
        assert(v.take(i + 1).drop_last() =~= v.take(i as int));
        assert(v.take(i + 1).last() == words@[i as int]@);
        hsum = hsum + (words[i].bounds.top as i128 - words[i].bounds.bottom as i128);
        i = i + 1;
    }
    assert(v.take(n as int) =~= v);
    hsum
}

fn top_to_bottom_order(words: &Vec<WordInfo>) -> (order1: Vec<usize>)
    ensures
        is_permutation_of_range(order1@, words.len() as nat),
        sorted_by_keys(y_keys(views(words@)), order1@),
{
    let ghost v = views(words@);
    let n = words.len();
    let mut keys: Vec<SortKey> = Vec::new();
    let mut i: usize = 0;
    while i < n
        invariant
            n == words.len(),
            v == views(words@),
            i <= n,
            keys@ =~= y_keys(v).take(i as int),
        decreases n - i,
    {
        keys.push((-(words[i].center_y as i128), 0i128, 0i128));
        i = i + 1;
    }
    assert(y_keys(v).take(n as int) =~= y_keys(v));
    sort_indices_by_keys(&keys)
}

/// Whether a word whose centre is `y` stays on the line whose first centre is `anchor`.
fn same_line(y: i64, anchor: i64, n: usize, hsum: i128) -> (r: bool)
    requires
        -2 * pow2_32() <= y <= 2 * pow2_32(),
        -2 * pow2_32() <= anchor <= 2 * pow2_32(),
    ensures
        r == (abs_int(y - anchor) * n <= hsum),
{
    let d: i128 = y as i128 - anchor as i128;
    let ad: i128 = if d < 0 {
        -d
    } else {
        d
    };
    assert(0 <= ad <= 4 * pow2_32());
    assert(ad * n <= 4 * pow2_32() * 0x1_0000_0000_0000_0000) by (nonlinear_arith)
        requires
            0 <= ad <= 4 * pow2_32(),
            0 <= n < 0x1_0000_0000_0000_0000,
            pow2_32() == 0x1_0000_0000,
    ;
    ad * (n as i128) <= hsum
}

fn cluster_lines(words: &Vec<WordInfo>, order1: &Vec<usize>, hsum: i128) -> (line_at: Vec<usize>)
    requires
        all_centered(views(words@)),
        is_permutation_of_range(order1@, words.len() as nat),
    ensures
        line_at.len() == words.len(),
        forall|k: int|
            0 <= k < words.len() ==> #[trigger] line_at@[k] as int == cluster(
                ys_in_order(views(words@), order1@),
                words.len() as int,
                hsum as int,
            )[k],
{
    let ghost v = views(words@);
    let ghost ys = ys_in_order(v, order1@);
    let n = words.len();
    let mut line_at: Vec<usize> = Vec::new();
    let mut anchor: i64 = 0;
    let mut cur: usize = 0;
    let mut k: usize = 0;
    while k < n
        invariant
            n == words.len(),
            v == views(words@),
            ys == ys_in_order(v, order1@),
            all_centered(v),
            is_permutation_of_range(order1@, n as nat),
            k <= n,
            line_at.len() == k,
            cluster(ys.take(k as int), n as int, hsum as int).len() == k,
            forall|j: int| 0 <= j < k ==> #[trigger] line_at@[j] as int == cluster(ys.take(k as int), n as int, hsum as int)[j],
            k > 0 ==> anchor == cluster_state(ys.take(k as int), n as int, hsum as int).1,
            k > 0 ==> cur == line_at@[k - 1] && cur < k,
            k == 0 ==> cur == 0,
            -2 * pow2_32() <= anchor <= 2 * pow2_32(),
        decreases n - k,
    {
        let i = order1[k];
        let y = words[i].center_y;
        assert(centered(v[i as int]));
        assert(ys.take(k + 1).drop_last() =~= ys.take(k as int));
        assert(ys.take(k + 1).last() == y);
        let ghost st = cluster_state(ys.take(k as int), n as int, hsum as int);
        let ghost prev = st.0;
        let ghost before = line_at@;
        assert(k > 0 ==> prev.last() == cur) by {
            if k > 0 {
                assert(line_at@[k - 1] as int == prev[k - 1]);
            }
        }
        assert(cluster_state(ys.take(k + 1), n as int, hsum as int) == (if prev.len() > 0 && abs_int(y - st.1) * n <= hsum {
            (prev.push(prev.last()), st.1)
        } else if prev.len() > 0 {
            (prev.push(prev.last() + 1), y as int)
        } else {
            (seq![0int], y as int)
        }));
        if k > 0 && same_line(y, anchor, n, hsum) {
            line_at.push(cur);
        } else {
            if k > 0 {
                cur = cur + 1;
            }
            anchor = y;
            line_at.push(cur);
        }
        assert forall|j: int| 0 <= j < k + 1 implies #[trigger] line_at@[j] as int == cluster(
            ys.take(k + 1),
            n as int,
            hsum as int,
        )[j] by {
            if j < k {
                assert(line_at@[j] == before[j]);
            } else {
                assert(line_at@[j] == cur);
            }
        }
        k = k + 1;
    }
    assert(ys.take(n as int) =~= ys);
    line_at
}


fn lines_and_ranks(order1: &Vec<usize>, line_at: &Vec<usize>) -> (r: (Vec<usize>, Vec<usize>))
    requires
        is_permutation_of_range(order1@, order1.len() as nat),
        line_at.len() == order1.len(),
    ensures
        r.0.len() == order1.len(),
        r.1.len() == order1.len(),
        forall|k: int| 0 <= k < order1.len() ==> r.0@[#[trigger] order1@[k] as int] == line_at@[k],
        forall|k: int| 0 <= k < order1.len() ==> r.1@[#[trigger] order1@[k] as int] == k,
{
    let n = order1.len();
    let mut lines_of: Vec<usize> = vec![0; n];
    let mut rank: Vec<usize> = vec![0; n];
    let mut k: usize = 0;
    while k < n
        invariant
            n == order1.len(),
            line_at.len() == n,
            is_permutation_of_range(order1@, n as nat),
            k <= n,
            lines_of.len() == n,
            rank.len() == n,
            forall|j: int| 0 <= j < k ==> lines_of@[#[trigger] order1@[j] as int] == line_at@[j],
            forall|j: int| 0 <= j < k ==> rank@[#[trigger] order1@[j] as int] == j,
        decreases n - k,
    {
        let i = order1[k];
        lines_of.set(i, line_at[k]);
        rank.set(i, k);
        assert forall|j: int| 0 <= j < k + 1 implies lines_of@[#[trigger] order1@[j] as int]
            == line_at@[j] && rank@[order1@[j] as int] == j by {
            if j < k {
                assert(order1@[j] != order1@[k as int]);
            }
        }
        k = k + 1;
    }
    (lines_of, rank)
}

fn reading_order(words: &Vec<WordInfo>, lines_of: &Vec<usize>, rank: &Vec<usize>) -> (order2: Vec<usize>)
    requires
        lines_of.len() == words.len(),
        rank.len() == words.len(),
    ensures
        is_permutation_of_range(order2@, words.len() as nat),
        sorted_by_keys(line_keys(views(words@), lines_of@, rank@), order2@),
{
    let ghost v = views(words@);
    let n = words.len();
    let mut keys: Vec<SortKey> = Vec::new();
    let mut i: usize = 0;
    while i < n
        invariant
            n == words.len(),
            lines_of.len() == n,
            rank.len() == n,
            v == views(words@),
            i <= n,
            keys@ =~= line_keys(v, lines_of@, rank@).take(i as int),
        decreases n - i,
    {
        keys.push((lines_of[i] as i128, words[i].center_x as i128, rank[i] as i128));
        i = i + 1;
    }
    assert(line_keys(v, lines_of@, rank@).take(n as int) =~= line_keys(v, lines_of@, rank@));
    sort_indices_by_keys(&keys)
}

/// `i` is among the first `k` entries of `o`.
pub open spec fn taken_before(o: Seq<usize>, k: int, i: int) -> bool {
    exists|j: int| 0 <= j < k && o[j] == i
}

fn move_in_order(words: Vec<WordInfo>, order2: &Vec<usize>, lines_of: &Vec<usize>) -> (out: Vec<
    WordInfo,
>)
    requires
        is_permutation_of_range(order2@, words.len() as nat),
        lines_of.len() == words.len(),
    ensures
        out.len() == words.len(),
        forall|k: int|
            0 <= k < words.len() ==> #[trigger] out@[k]@ == with_line(
                words@[order2@[k] as int]@,
                lines_of@[order2@[k] as int],
            ),
{
    let n = words.len();
    let ghost orig = words@;
    let mut src = words;
    let mut rev: Vec<WordInfo> = Vec::new();
    while src.len() > 0
        invariant
            src.len() + rev.len() == n,
            orig.len() == n,
            forall|j: int| 0 <= j < src.len() ==> src@[j] == orig[j],
            forall|j: int| 0 <= j < rev.len() ==> rev@[j] == orig[n - 1 - j],
        decreases src.len(),
    {
        let w = src.pop().unwrap();
        rev.push(w);
    }
    let mut opts: Vec<Option<WordInfo>> = Vec::new();
    while rev.len() > 0
        invariant
            rev.len() + opts.len() == n,
            orig.len() == n,
            forall|j: int| 0 <= j < opts.len() ==> opts@[j] == Some(orig[j]),
            forall|j: int| 0 <= j < rev.len() ==> rev@[j] == orig[n - 1 - j],
        decreases rev.len(),
    {
        let w = rev.pop().unwrap();
        opts.push(Some(w));
    }
    let mut out: Vec<WordInfo> = Vec::new();
    let mut k: usize = 0;
    while k < n
        invariant
            orig.len() == n,
            is_permutation_of_range(order2@, n as nat),
            lines_of.len() == n,
            k <= n,
            opts.len() == n,
            forall|i: int|
                0 <= i < n && !taken_before(order2@, k as int, i) ==> #[trigger] opts@[i] == Some(
                    orig[i],
                ),
            out.len() == k,
            forall|j: int|
                0 <= j < k ==> #[trigger] out@[j]@ == with_line(
                    orig[order2@[j] as int]@,
                    lines_of@[order2@[j] as int],
                ),
        decreases n - k,
    {
        let i = order2[k];
        assert(!taken_before(order2@, k as int, i as int)) by {
            if taken_before(order2@, k as int, i as int) {
                let j = choose|j: int| 0 <= j < k && order2@[j] == i;
                assert(order2@[j] != order2@[k as int]);
            }
        }
        let ghost before = opts@;
        let taken = opts[i].take();
        assert(opts@ == before.update(i as int, None));
        match taken {
            Some(mut w) => {
                w.line_index = lines_of[i];
                out.push(w);
            },
            None => {
                assert(false);
            },
        }
        assert forall|i2: int|
            0 <= i2 < n && !taken_before(order2@, k + 1, i2) implies #[trigger] opts@[i2] == Some(
            orig[i2],
        ) by {
            assert(!taken_before(order2@, k as int, i2)) by {
                if taken_before(order2@, k as int, i2) {
                    let j = choose|j: int| 0 <= j < k && order2@[j] == i2;
                    assert(0 <= j < k + 1 && order2@[j] == i2);
                }
            }
            if i2 == i {
                assert(order2@[k as int] == i2);
            }
        }
        k = k + 1;
    }
    out
}


/// The quotient of `s` by a positive `c`, rounded down.
fn floor_div(s: i128, c: i128) -> (r: i128)
    requires
        c > 0,
        -0x1_0000_0000_0000_0000_0000_0000 <= s <= 0x1_0000_0000_0000_0000_0000_0000,
        c <= 0x1_0000_0000_0000_0000,
    ensures
        r == s / c,
{
    if s >= 0 {
        let q = s / c;
        q
    } else {
        let t: i128 = -s;
        let q: i128 = (t + c - 1) / c;
        proof {
            let num: int = t + c - 1;
            let qq: int = num / (c as int);
            let rr: int = num % (c as int);
            vstd::arithmetic::div_mod::lemma_fundamental_div_mod(num, c as int);
            assert(s == (-qq) * c + (c - 1 - rr)) by (nonlinear_arith)
                requires
                    num == c * qq + rr,
                    num == t + c - 1,
                    s == -t,
            ;
            assert(0 <= rr < c) by {
                vstd::arithmetic::div_mod::lemma_mod_pos_bound(num, c as int);
            }
            assert(q == qq);
            vstd::arithmetic::div_mod::lemma_fundamental_div_mod_converse(
                s as int,
                c as int,
                -qq,
                c - 1 - rr,
            );
        }
        -q
    }
}


proof fn lemma_sum_center_y_bounded(ws: Seq<WordView>, a: int, b: int)
    requires
        all_centered(ws),
        0 <= a <= b <= ws.len(),
    ensures
        -(b - a) * pow2_32() <= sum_center_y(ws, a, b) <= (b - a) * pow2_32(),
    decreases b - a,
{
    if b > a {
        lemma_sum_center_y_bounded(ws, a, b - 1);
        assert(centered(ws[b - 1]));
    }
}

proof fn lemma_mean_bounded(s: int, c: int, bound: int)
    requires
        c > 0,
        bound >= 0,
        -c * bound <= s <= c * bound,
    ensures
        -bound <= s / c <= bound,
{
    vstd::arithmetic::div_mod::lemma_fundamental_div_mod(s, c);
    let q = s / c;
    let r = s % c;
    vstd::arithmetic::div_mod::lemma_mod_bound(s, c);
    assert(-bound <= q <= bound) by (nonlinear_arith)
        requires
            s == c * q + r,
            0 <= r < c,
            -c * bound <= s <= c * bound,
            c > 0,
            bound >= 0,
    ;
}

fn line_mean(ysum: i128, count: usize, Ghost(ws): Ghost<Seq<WordView>>, Ghost(a): Ghost<int>) -> (r: i64)
    requires
        all_centered(ws),
        0 <= a,
        a + count <= ws.len(),
        count > 0,
        ysum == sum_center_y(ws, a, a + count),
    ensures
        r == sum_center_y(ws, a, a + count) / (count as int),
{
    proof {
        lemma_sum_center_y_bounded(ws, a, a + count);
        lemma_mean_bounded(ysum as int, count as int, pow2_32());
        assert(count * pow2_32() <= 0x1_0000_0000_0000_0000_0000_0000) by (nonlinear_arith)
            requires
                count < 0x1_0000_0000_0000_0000,
                pow2_32() == 0x1_0000_0000,
        ;
    }
    let m = floor_div(ysum, count as i128);
    m as i64
}

/// The lines cover the words before position `end` as `lines_cover` and `lines_centred` say.
pub open spec fn lines_prefix(ws: Seq<WordView>, lines: Seq<LineInfo>, end: int) -> bool {
    &&& lines.len() == 0 ==> end == 0
    &&& lines.len() > 0 ==> lines[0].word_start == 0 && lines.last().word_end == end
    &&& forall|l: int| 0 <= l < lines.len() ==> #[trigger] lines[l].word_start < lines[l].word_end
    &&& forall|l: int|
        0 <= l < lines.len() - 1 ==> #[trigger] lines[l].word_end == lines[l + 1].word_start
    &&& forall|l: int, k: int|
        #![trigger lines[l], ws[k]]
        0 <= l < lines.len() && lines[l].word_start <= k < lines[l].word_end ==> ws[k].line_index
            == l
    &&& lines_centred(ws, lines)
}

fn push_line(
    lines: &mut Vec<LineInfo>,
    start: usize,
    end: usize,
    ysum: i128,
    Ghost(nv): Ghost<Seq<WordView>>,
)
    requires
        lines_prefix(nv, old(lines)@, start as int),
        all_centered(nv),
        start < end <= nv.len(),
        forall|j: int| start <= j < end ==> #[trigger] nv[j].line_index == old(lines).len(),
        ysum == sum_center_y(nv, start as int, end as int),
    ensures
        lines_prefix(nv, final(lines)@, end as int),
        final(lines).len() == old(lines).len() + 1,
{
    let mean = line_mean(ysum, end - start, Ghost(nv), Ghost(start as int));
    let ghost before = lines@;
    lines.push(LineInfo::new(start, end, mean));
    assert forall|l: int, j: int|
        #![trigger lines@[l], nv[j]]
        0 <= l < lines.len() && lines@[l].word_start <= j < lines@[l].word_end implies nv[j].line_index
            == l by {
        if l < before.len() {
            assert(lines@[l] == before[l]);
        }
    }
    assert forall|l: int| 0 <= l < lines.len() implies #[trigger] lines@[l].y_center == sum_center_y(
        nv,
        lines@[l].word_start as int,
        lines@[l].word_end as int,
    ) / (lines@[l].word_end - lines@[l].word_start) by {
        if l < before.len() {
            assert(lines@[l] == before[l]);
        }
    }
}

fn build_lines(out: &Vec<WordInfo>) -> (lines: Vec<LineInfo>)
    requires
        out.len() > 0,
        all_centered(views(out@)),
        out@[0]@.line_index == 0,
        forall|k: int|
            0 <= k < out.len() - 1 ==> (#[trigger] out@[k + 1]@.line_index == out@[k]@.line_index
                || out@[k + 1]@.line_index == out@[k]@.line_index + 1),
    ensures
        lines_cover(views(out@), lines@),
        lines_centred(views(out@), lines@),
{
    let ghost nv = views(out@);
    let n = out.len();
    let mut lines: Vec<LineInfo> = Vec::new();
    let mut start: usize = 0;
    let mut ysum: i128 = out[0].center_y as i128;
    let mut k: usize = 1;
    assert(sum_center_y(nv, 0, 0) == 0);
    assert(sum_center_y(nv, 0, 1) == nv[0].center_y);
    while k < n
        invariant
            n == out.len(),
            nv == views(out@),
            all_centered(nv),
            forall|j: int|
                0 <= j < n - 1 ==> (#[trigger] nv[j + 1].line_index == nv[j].line_index || nv[j
                    + 1].line_index == nv[j].line_index + 1),
            nv[0].line_index == 0,
            start < k <= n,
            ysum == sum_center_y(nv, start as int, k as int),
            lines.len() == nv[start as int].line_index,
            forall|j: int| start <= j < k ==> #[trigger] nv[j].line_index == nv[start as int].line_index,
            lines_prefix(nv, lines@, start as int),
        decreases n - k,
    {
        assert(centered(nv[k as int]));
        assert(nv[k as int].line_index == out@[k as int].line_index);
        assert(nv[k - 1].line_index == out@[k - 1].line_index);
        assert(nv[(k - 1) + 1].line_index == nv[k - 1].line_index || nv[(k - 1) + 1].line_index
            == nv[k - 1].line_index + 1);
        if out[k].line_index != out[k - 1].line_index {
            push_line(&mut lines, start, k, ysum, Ghost(nv));
            start = k;
            ysum = 0;
        }
        proof {
            lemma_sum_center_y_bounded(nv, start as int, k as int);
            assert((k - start) * pow2_32() <= 0x1_0000_0000_0000_0000_0000_0000) by (nonlinear_arith)
                requires
                    0 <= k - start < 0x1_0000_0000_0000_0000,
                    pow2_32() == 0x1_0000_0000,
            ;
        }
        ysum = ysum + out[k].center_y as i128;
        k = k + 1;
    }
    push_line(&mut lines, start, n, ysum, Ghost(nv));
    lines
}


/// Groups the words into lines and puts them in reading order: from top to bottom, a
/// word joins the current line when its centre is within half the mean word height of the
/// line's first word, and each line is read from left to right. Returns the lines.
fn group_into_lines(words: &mut Vec<WordInfo>) -> (lines: Vec<LineInfo>)
    requires
        all_centered(views(old(words)@)),
    ensures
        arranged_into_lines(views(old(words)@), views(final(words)@)),
        lines_cover(views(final(words)@), lines@),
        lines_centred(views(final(words)@), lines@),
{
    let ghost ov = views(words@);
    let n = words.len();
    if n == 0 {
        let ghost e: Seq<usize> = seq![];
        assert(arrangement(ov, views(words@), e, e, e, e));
        return Vec::new();
    }
    let hsum = height_total(words);
    let order1 = top_to_bottom_order(words);
    let line_at = cluster_lines(words, &order1, hsum);
    let (lines_of, rank) = lines_and_ranks(&order1, &line_at);
    let order2 = reading_order(words, &lines_of, &rank);
    let mut taken: Vec<WordInfo> = Vec::new();
    std::mem::swap(&mut taken, words);
    assert(views(taken@) == ov);
    let out = move_in_order(taken, &order2, &lines_of);
    *words = out;
    let ghost nv = views(words@);
    proof {
        assert forall|k: int| 0 <= k < n implies nv[k] == with_line(
            ov[order2@[k] as int],
            lines_of@[order2@[k] as int],
        ) by {
            assert(words@[k]@ == with_line(
                ov[order2@[k] as int],
                lines_of@[order2@[k] as int],
            ));
        }
        assert forall|k: int| 0 <= k < n implies lines_of@[order1@[k] as int] == cluster(
            ys_in_order(ov, order1@),
            n as int,
            height_sum(ov),
        )[k] by {
            assert(lines_of@[order1@[k] as int] == line_at@[k]);
        }
        assert(arrangement(ov, nv, order1@, order2@, lines_of@, rank@));
        lemma_arranged_lines_consecutive(ov, nv, order1@, order2@, lines_of@, rank@);
        assert forall|k: int| 0 <= k < n implies #[trigger] centered(nv[k]) by {
            assert(centered(ov[order2@[k] as int]));
        }
        assert forall|k: int| 0 <= k < n - 1 implies (#[trigger] words@[k + 1]@.line_index
            == words@[k]@.line_index || words@[k + 1]@.line_index == words@[k]@.line_index + 1) by {
            assert(nv[k + 1] == words@[k + 1]@);
            assert(nv[k] == words@[k]@);
        }
        assert(nv[0] == words@[0]@);
    }
    build_lines(words)
}


/// The text of one PDF page, organised for navigation: its words in reading order and
/// its lines. Page sizes are in integer page units.
#[derive(Debug)]
pub struct PageTextMap {
    /// The page's index in the document.
    pub page_index: usize,
    /// The words, in reading order (top to bottom, left to right).
    pub words: Vec<WordInfo>,
    /// The lines, each a range of `words`.
    pub lines: Vec<LineInfo>,
    pub page_width: i32,
    pub page_height: i32,
}

impl PageTextMap {
    /// Whether a character belongs to a word: alphanumeric, an apostrophe or a hyphen.
    pub fn is_word_char(c: char) -> (r: bool)
        ensures
            r == spec_is_word_char(c),
    {
        is_alphanumeric(c) || c == '\'' || c == '-'
    }

    /// The lines partition the words, as `lines_cover` says.
    pub open spec fn wf(&self) -> bool {
        lines_cover(views(self.words@), self.lines@)
    }

    /// The text map of a page from its characters: the words are the maximal runs of word
    /// characters, grouped into lines and put in reading order. When no character is upside
    /// down, each line's centre lies strictly above the next line's.
    pub fn build_from_page(
        chars: &Vec<CharData>,
        page_index: usize,
        page_width: i32,
        page_height: i32,
    ) -> (r: Self)
        requires
            indices_bounded(chars@),
        ensures
            r.page_index == page_index,
            r.page_width == page_width,
            r.page_height == page_height,
            arranged_into_lines(scanned_words(chars@), views(r.words@)),
            lines_centred(views(r.words@), r.lines@),
            chars_upright(chars@) ==> lines_descend(r.lines@),
            r.wf(),
    {
        let mut words = extract_words(chars);
        assert(views(words@) =~= scanned_words(chars@));
        let lines = group_into_lines(&mut words);
        proof {
            if chars_upright(chars@) {
                lemma_scanned_upright(chars@);
                lemma_lines_descend(scanned_words(chars@), views(words@), lines@);
            }
        }
        PageTextMap { page_index, words, lines, page_width, page_height }
    }

    /// The word at `index`, if there is one.
    pub fn get_word(&self, index: usize) -> (r: Option<&WordInfo>)
        ensures
            index < self.words.len() ==> r == Some(&self.words@[index as int]),
            index >= self.words.len() ==> r is None,
    {
        if index < self.words.len() {
            Some(&self.words[index])
        } else {
            None
        }
    }

    /// The line at `index`, if there is one.
    pub fn get_line(&self, index: usize) -> (r: Option<&LineInfo>)
        ensures
            index < self.lines.len() ==> r == Some(&self.lines@[index as int]),
            index >= self.lines.len() ==> r is None,
    {
        if index < self.lines.len() {
            Some(&self.lines[index])
        } else {
            None
        }
    }

    /// The words of line `line_index`; none when there is no such line.
    pub fn words_on_line(&self, line_index: usize) -> (r: &[WordInfo])
        requires
            self.wf(),
        ensures
            line_index < self.lines.len() ==> r@ == self.words@.subrange(
                self.lines@[line_index as int].word_start as int,
                self.lines@[line_index as int].word_end as int,
            ),
            line_index >= self.lines.len() ==> r@.len() == 0,
    {
        if line_index < self.lines.len() {
            let line = self.lines[line_index];
            proof {
                lemma_line_in_range(self.words@, self.lines@, line_index as int);
            }
            let all: &[WordInfo] = self.words.as_slice();
            &all[line.word_start..line.word_end]
        } else {
            &[]
        }
    }

    /// The word indices of line `line_index`; empty when there is no such line.
    pub fn word_indices_on_line(&self, line_index: usize) -> (r: std::ops::Range<usize>)
        ensures
            line_index < self.lines.len() ==> r.start == self.lines@[line_index as int].word_start
                && r.end == self.lines@[line_index as int].word_end,
            line_index >= self.lines.len() ==> r.start == 0 && r.end == 0,
    {
        if line_index < self.lines.len() {
            let line = self.lines[line_index];
            line.word_start..line.word_end
        } else {
            0..0
        }
    }

    /// The first word, in reading order, whose bounds overlap vertically the band between
    /// `rect_bottom` and `rect_top`.
    pub fn first_word_in_rect(&self, rect_top: i32, rect_bottom: i32) -> (r: Option<usize>)
        ensures
            r matches Some(i) ==> i < self.words.len() && overlaps_band(
                self.words@[i as int]@,
                rect_top,
                rect_bottom,
            ) && forall|j: int|
                0 <= j < i ==> !overlaps_band(#[trigger] self.words@[j]@, rect_top, rect_bottom),
            r is None ==> forall|j: int|
                0 <= j < self.words.len() ==> !overlaps_band(
                    #[trigger] self.words@[j]@,
                    rect_top,
                    rect_bottom,
                ),
    {
        let mut idx: usize = 0;
        while idx < self.words.len()
            invariant
                idx <= self.words.len(),
                forall|j: int|
                    0 <= j < idx ==> !overlaps_band(#[trigger] self.words@[j]@, rect_top, rect_bottom),
            decreases self.words.len() - idx,
        {
            let b = self.words[idx].bounds;
            if b.top >= rect_bottom && b.bottom <= rect_top {
                return Some(idx);
            }
            idx = idx + 1;
        }
        None
    }

    /// The first word, in reading order, whose vertical centre is nearest to `target_y`
    /// (given like `center_y`, as twice the height); None when the page has no words.
    pub fn word_nearest_height(&self, target_y: i64) -> (r: Option<usize>)
        ensures
            self.words.len() == 0 ==> r is None,
            self.words.len() > 0 ==> (r matches Some(i) && i < self.words.len() && (forall|j: int|
                0 <= j < self.words.len() ==> abs_int(self.words@[i as int].center_y - target_y)
                    <= abs_int(#[trigger] self.words@[j].center_y - target_y)) && (forall|j: int|
                0 <= j < i ==> abs_int(self.words@[i as int].center_y - target_y) < abs_int(
                    #[trigger] self.words@[j].center_y - target_y,
                ))),
    {
        let n = self.words.len();
        if n == 0 {
            return None;
        }
        let mut best: usize = 0;
        let mut best_dist: i128 = abs_diff(self.words[0].center_y, target_y);
        let mut idx: usize = 1;
        while idx < n
            invariant
                n == self.words.len(),
                1 <= idx <= n,
                best < idx,
                best_dist == abs_int(self.words@[best as int].center_y - target_y),
                forall|j: int|
                    0 <= j < idx ==> best_dist <= abs_int(#[trigger] self.words@[j].center_y - target_y),
                forall|j: int|
                    0 <= j < best ==> best_dist < abs_int(#[trigger] self.words@[j].center_y - target_y),
            decreases n - idx,
        {
            let d = abs_diff(self.words[idx].center_y, target_y);
            if d < best_dist {
                best = idx;
                best_dist = d;
            }
            idx = idx + 1;
        }
        Some(best)
    }

    /// The number of words on the page.
    pub fn word_count(&self) -> (r: usize)
        ensures
            r == self.words.len(),
    {
        self.words.len()
    }

    /// The number of lines on the page.
    pub fn line_count(&self) -> (r: usize)
        ensures
            r == self.lines.len(),
    {
        self.lines.len()
    }
}

/// The word's bounds overlap vertically the band between `bottom` and `top`.
pub open spec fn overlaps_band(w: WordView, top: i32, bottom: i32) -> bool {
    w.bounds.top >= bottom && w.bounds.bottom <= top
}

/// |a - b|.
pub fn abs_diff(a: i64, b: i64) -> (r: i128)
    ensures
        r == abs_int(a - b),
{
    let d: i128 = a as i128 - b as i128;
    if d < 0 {
        -d
    } else {
        d
    }
}

/// The words of each line lie within the page's words.
pub proof fn lemma_line_in_range(ws: Seq<WordInfo>, lines: Seq<LineInfo>, l: int)
    requires
        lines_cover(views(ws), lines),
        0 <= l < lines.len(),
    ensures
        lines[l].word_start < lines[l].word_end <= ws.len(),
    decreases lines.len() - l,
{
    if l < lines.len() - 1 {
        lemma_line_in_range(ws, lines, l + 1);
        assert(lines[l].word_end == lines[l + 1].word_start);
    }
}

} // verus!
