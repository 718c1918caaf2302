//! Words under a click in a page's text, and the dimensions of a rendered page. Reading
//! the page's text and finding the character under the pointer is the application's part.
use vstd::prelude::*;
use crate::text::{chars_of, is_alphanumeric, push_char, spec_is_alphanumeric, spec_to_lowercase, to_lowercase};

verus! {

/// The width in pixels at which pages are rendered.
pub const RENDER_WIDTH: i32 = 1000;

/// A word taken from a page's text, as written and in lower case.
#[derive(Debug)]
pub struct ExtractedWord {
    pub original: String,
    pub lowercase: String,
}

/// The size of a rendered page and the number of bytes per row of its pixels.
#[derive(Debug, Clone, Copy, PartialEq, Eq, Structural)]
pub struct PageRenderConfig {
    pub width: i32,
    pub height: i32,
    pub stride: usize,
}

/// A character that belongs to a word: a letter, a digit or an apostrophe.
pub open spec fn is_text_word_char(c: char) -> bool {
    spec_is_alphanumeric(c) || c == '\''
}

/// Where the run of word characters that ends just before `i` starts.
pub open spec fn word_run_start(cs: Seq<char>, i: int) -> int
    decreases i,
{
    if i > 0 && is_text_word_char(cs[i - 1]) {
        word_run_start(cs, i - 1)
    } else {
        i
    }
}

/// Where the run of word characters that starts at `i` ends.
pub open spec fn word_run_end(cs: Seq<char>, i: int) -> int
    decreases cs.len() - i,
{
    if 0 <= i < cs.len() && is_text_word_char(cs[i]) {
        word_run_end(cs, i + 1)
    } else {
        i
    }
}

/// The word of `text` at character `idx`: the run of word characters around it. There is
/// none when `idx` is past the end or the character there is not a word character.
pub open spec fn word_at(text: Seq<char>, idx: int) -> Option<Seq<char>> {
    if 0 <= idx < text.len() && is_text_word_char(text[idx]) {
        Some(text.subrange(word_run_start(text, idx), word_run_end(text, idx)))
    } else {
        None
    }
}

proof fn lemma_word_run_start(cs: Seq<char>, i: int, s: int)
    requires
        0 <= s <= i <= cs.len(),
        forall|k: int| s <= k < i ==> is_text_word_char(#[trigger] cs[k]),
        s == 0 || !is_text_word_char(cs[s - 1]),
    ensures
        word_run_start(cs, i) == s,
    decreases i - s,
{
    if i > s {
        lemma_word_run_start(cs, i - 1, s);
    }
}


pub(crate) proof fn lemma_run_start_prop(cs: Seq<char>, i: int)
    requires
        0 <= i <= cs.len(),
    ensures
        0 <= word_run_start(cs, i) <= i,
        forall|k: int| word_run_start(cs, i) <= k < i ==> is_text_word_char(#[trigger] cs[k]),
        word_run_start(cs, i) == 0 || !is_text_word_char(cs[word_run_start(cs, i) - 1]),
    decreases i,
{
    if i > 0 && is_text_word_char(cs[i - 1]) {
        lemma_run_start_prop(cs, i - 1);
    }
}

pub(crate) proof fn lemma_run_end_prop(cs: Seq<char>, i: int)
    requires
        0 <= i <= cs.len(),
    ensures
        i <= word_run_end(cs, i) <= cs.len(),
        forall|k: int| i <= k < word_run_end(cs, i) ==> is_text_word_char(#[trigger] cs[k]),
        word_run_end(cs, i) == cs.len() || !is_text_word_char(cs[word_run_end(cs, i)]),
    decreases cs.len() - i,
{
    if i < cs.len() && is_text_word_char(cs[i]) {
        lemma_run_end_prop(cs, i + 1);
    }
}

/// The word at a character is the longest run of word characters around it: it holds the
/// character, all its characters are word characters, and the characters just before and
/// just after it (when there are any) are not.
pub proof fn lemma_word_at_is_maximal_run(text: Seq<char>, idx: int)
    requires
        word_at(text, idx) is Some,
    ensures
        ({
            let s = word_run_start(text, idx);
            let e = word_run_end(text, idx);
            &&& 0 <= s <= idx < e <= text.len()
            &&& word_at(text, idx) == Some(text.subrange(s, e))
            &&& forall|k: int| s <= k < e ==> is_text_word_char(#[trigger] text[k])
            &&& s == 0 || !is_text_word_char(text[s - 1])
            &&& e == text.len() || !is_text_word_char(text[e])
        }),
{
    lemma_run_start_prop(text, idx);
    lemma_run_end_prop(text, idx);
    assert(word_run_end(text, idx) == word_run_end(text, idx + 1));
    lemma_run_end_prop(text, idx + 1);
}

/// A letter, a digit or an apostrophe.
fn is_word_char(c: char) -> (r: bool)
    ensures
        r == is_text_word_char(c),
{
    is_alphanumeric(c) || c == '\''
}

/// The start of the word around `idx`, or just past `idx` when the character there is not
/// a word character.
pub(crate) fn find_word_start(chars: &Vec<char>, idx: usize) -> (r: usize)
    requires
        idx < chars.len(),
    ensures
        is_text_word_char(chars@[idx as int]) ==> r == word_run_start(chars@, idx as int),
        !is_text_word_char(chars@[idx as int]) ==> r == idx + 1,
{
    let mut start = idx;
    while start > 0 && is_word_char(chars[start])
        invariant
            start <= idx < chars.len(),
            forall|k: int| start < k <= idx ==> is_text_word_char(#[trigger] chars@[k]),
        decreases start,
    {
        start = start - 1;
    }
    if !is_word_char(chars[start]) {
        start = start + 1;
    }
    proof {
        if is_text_word_char(chars@[idx as int]) {
            lemma_word_run_start(chars@, idx as int, start as int);
        }
    }
    start
}

/// The end of the run of word characters that starts at `idx`.
pub(crate) fn find_word_end(chars: &Vec<char>, idx: usize) -> (r: usize)
    requires
        idx < chars.len(),
    ensures
        r == word_run_end(chars@, idx as int),
{
    let mut end = idx;
    while end < chars.len() && is_word_char(chars[end])
        invariant
            idx <= end <= chars.len(),
            word_run_end(chars@, idx as int) == word_run_end(chars@, end as int),
        decreases chars.len() - end,
    {
        end = end + 1;
    }
    end
}

/// The word of `full_text` at character index `idx`, as written and in lower case.
pub fn extract_word_at_index(full_text: &str, idx: usize) -> (r: Option<ExtractedWord>)
    ensures
        r is None <==> word_at(full_text@, idx as int) is None,
        r matches Some(w) ==> word_at(full_text@, idx as int) == Some(w.original@)
            && w.lowercase@ == spec_to_lowercase(w.original@),
{
    let chars_vec = chars_of(full_text);
    if idx >= chars_vec.len() {
        return None;
    }
    let start = find_word_start(&chars_vec, idx);
    let end = find_word_end(&chars_vec, idx);
    proof {
        lemma_run_end_prop(chars_vec@, idx as int);
        lemma_run_start_prop(chars_vec@, idx as int);
        if !is_text_word_char(chars_vec@[idx as int]) {
            assert(end == idx);
        } else {
            assert(end == word_run_end(chars_vec@, idx + 1));
            lemma_run_end_prop(chars_vec@, idx + 1);
        }
    }
    if start > end {
        return None;
    }
    let mut original = String::new();
    let mut k = start;
    while k < end
        invariant
            start <= k <= end <= chars_vec.len(),
            original@ == chars_vec@.subrange(start as int, k as int),
        decreases end - k,
    {
        push_char(&mut original, chars_vec[k]);
        assert(original@ =~= chars_vec@.subrange(start as int, k + 1));
        k = k + 1;
    }
    let lowercase = to_lowercase(original.as_str());
    Some(ExtractedWord { original, lowercase })
}

/// The dimensions of a rendered page of the given size in pixels, whose rows hold four
/// bytes per pixel.
pub fn calculate_page_dimensions(width: i32, height: i32) -> (r: PageRenderConfig)
    requires
        i32::MIN <= width * 4 <= i32::MAX,
    ensures
        r.width == width,
        r.height == height,
        r.stride == ((width * 4) as i32) as usize,
{
    PageRenderConfig { width, height, stride: (width * 4) as usize }
}

} // verus!
