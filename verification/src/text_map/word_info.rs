use vstd::prelude::*;

verus! {

/// An axis-aligned rectangle on a PDF page in integer units (thousandths of a PDF point),
/// with the origin at the bottom-left of the page.
#[derive(Debug, Clone, Copy, PartialEq, Eq, Structural)]
pub struct Bounds {
    pub bottom: i32,
    pub left: i32,
    pub top: i32,
    pub right: i32,
}

impl Bounds {
    pub fn new_from_values(bottom: i32, left: i32, top: i32, right: i32) -> (r: Self)
        ensures
            r == (Bounds { bottom, left, top, right }),
    {
        Bounds { bottom, left, top, right }
    }
}

/// A word of a page. The centre coordinates are sums (left + right, bottom + top), that is
/// the centre in half units, so that they are exact integers.
#[derive(Debug)]
pub struct WordInfo {
    /// The word's text.
    pub text: String,
    /// Index of the word's first character in the page's text.
    pub char_start: usize,
    /// Index just past the word's last character in the page's text.
    pub char_end: usize,
    /// Bounding box of the word.
    pub bounds: Bounds,
    /// left + right of the bounds.
    pub center_x: i64,
    /// bottom + top of the bounds.
    pub center_y: i64,
    /// The line the word belongs to.
    pub line_index: usize,
    /// The characters between the previous word and this one, when there are any.
    pub surround_left: Option<String>,
}

/// The abstract value of a word, with its strings as character sequences.
pub struct WordView {
    pub text: Seq<char>,
    pub char_start: usize,
    pub char_end: usize,
    pub bounds: Bounds,
    pub center_x: i64,
    pub center_y: i64,
    pub line_index: usize,
    pub surround_left: Option<Seq<char>>,
}

pub open spec fn opt_string_view(o: Option<String>) -> Option<Seq<char>> {
    match o {
        Some(s) => Some(s@),
        None => None,
    }
}

impl View for WordInfo {
    type V = WordView;

    open spec fn view(&self) -> WordView {
        WordView {
            text: self.text@,
            char_start: self.char_start,
            char_end: self.char_end,
            bounds: self.bounds,
            center_x: self.center_x,
            center_y: self.center_y,
            line_index: self.line_index,
            surround_left: opt_string_view(self.surround_left),
        }
    }
}

/// The centres are those of the bounds.
pub open spec fn centered(w: WordView) -> bool {
    &&& w.center_x == w.bounds.left + w.bounds.right
    &&& w.center_y == w.bounds.bottom + w.bounds.top
}

impl WordInfo {
    /// A word with its centre computed from its bounds.
    pub fn new(
        text: String,
        char_start: usize,
        char_end: usize,
        bounds: Bounds,
        line_index: usize,
        surround_left: Option<String>,
    ) -> (r: Self)
        ensures
            r@.text == text@,
            r@.char_start == char_start,
            r@.char_end == char_end,
            r@.bounds == bounds,
            r@.line_index == line_index,
            r@.surround_left == opt_string_view(surround_left),
            centered(r@),
    {
        let center_x = bounds.left as i64 + bounds.right as i64;
        let center_y = bounds.bottom as i64 + bounds.top as i64;
        WordInfo {
            text,
            char_start,
            char_end,
            bounds,
            center_x,
            center_y,
            line_index,
            surround_left,
        }
    }
}

/// A line of a page: a range of word indices and the line's vertical centre.
#[derive(Debug, Clone, Copy, PartialEq, Eq, Structural)]
pub struct LineInfo {
    /// First word of the line.
    pub word_start: usize,
    /// Just past the last word of the line.
    pub word_end: usize,
    /// The mean of the words' `center_y` (rounded down).
    pub y_center: i64,
}

impl LineInfo {
    pub fn new(word_start: usize, word_end: usize, y_center: i64) -> (r: Self)
        ensures
            r == (LineInfo { word_start, word_end, y_center }),
    {
        LineInfo { word_start, word_end, y_center }
    }

    /// The number of words on the line.
    pub fn word_count(&self) -> (r: usize)
        requires
            self.word_start <= self.word_end,
        ensures
            r == self.word_end - self.word_start,
    {
        self.word_end - self.word_start
    }
}

} // verus!
