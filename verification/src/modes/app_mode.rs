use vstd::prelude::*;

verus! {

/// A position in the document: a page and a word on that page.
#[derive(Debug, Clone, Copy, PartialEq, Eq, Structural)]
pub struct WordCursor {
    pub page_index: usize,
    pub word_index: usize,
}

/// Document order on cursors: by page first, then by word.
pub open spec fn cursor_le(a: WordCursor, b: WordCursor) -> bool {
    a.page_index < b.page_index || (a.page_index == b.page_index && a.word_index <= b.word_index)
}

/// Strict document order on cursors.
pub open spec fn cursor_lt(a: WordCursor, b: WordCursor) -> bool {
    a.page_index < b.page_index || (a.page_index == b.page_index && a.word_index < b.word_index)
}

/// Decides `cursor_le` for two cursors.
pub fn cursor_precedes_or_equals(a: WordCursor, b: WordCursor) -> (r: bool)
    ensures
        r == cursor_le(a, b),
{
    a.page_index < b.page_index || (a.page_index == b.page_index && a.word_index <= b.word_index)
}

impl WordCursor {
    pub fn new(page_index: usize, word_index: usize) -> (r: Self)
        ensures
            r.page_index == page_index,
            r.word_index == word_index,
    {
        WordCursor { page_index, word_index }
    }
}

/// The mode the reader is in.
#[derive(Debug, Clone, Copy, PartialEq, Eq, Structural)]
pub enum AppMode {
    /// Scrolling only, no cursor.
    Normal,
    /// Word navigation with a cursor, and an optional selection anchor set by `s`.
    Visual { cursor: WordCursor, selection_anchor: Option<WordCursor> },
}

impl Default for AppMode {
    fn default() -> (r: Self)
        ensures
            r == AppMode::Normal,
    {
        AppMode::Normal
    }
}

/// The selection of a mode as a pair of cursors in document order, when an anchor is set.
pub open spec fn spec_selection_range(m: AppMode) -> Option<(WordCursor, WordCursor)> {
    match m {
        AppMode::Visual { cursor, selection_anchor: Some(anchor) } => if cursor_le(anchor, cursor) {
            Some((anchor, cursor))
        } else {
            Some((cursor, anchor))
        },
        _ => None,
    }
}

/// The mode after moving the cursor to `c`: Normal mode is left unchanged.
pub open spec fn spec_set_cursor(m: AppMode, c: WordCursor) -> AppMode {
    match m {
        AppMode::Visual { selection_anchor, .. } => AppMode::Visual { cursor: c, selection_anchor },
        AppMode::Normal => AppMode::Normal,
    }
}

/// The mode after toggling the anchor: set at the cursor when absent, cleared when present.
pub open spec fn spec_toggle_selection(m: AppMode) -> AppMode {
    match m {
        AppMode::Visual { cursor, selection_anchor } => AppMode::Visual {
            cursor,
            selection_anchor: if selection_anchor is Some {
                None
            } else {
                Some(cursor)
            },
        },
        AppMode::Normal => AppMode::Normal,
    }
}

impl AppMode {
    /// Whether the mode is Normal.
    pub fn is_normal(&self) -> (r: bool)
        ensures
            r == (*self is Normal),
    {
        match self {
            AppMode::Normal => true,
            _ => false,
        }
    }

    /// Whether the mode is Visual.
    pub fn is_visual(&self) -> (r: bool)
        ensures
            r == (*self is Visual),
    {
        match self {
            AppMode::Visual { .. } => true,
            _ => false,
        }
    }

    /// The cursor, in Visual mode.
    pub fn cursor(&self) -> (r: Option<WordCursor>)
        ensures
            r == (match *self {
                AppMode::Visual { cursor, .. } => Some(cursor),
                AppMode::Normal => None,
            }),
    {
        match self {
            AppMode::Visual { cursor, .. } => Some(*cursor),
            AppMode::Normal => None,
        }
    }

    /// The selection anchor, in Visual mode with an active selection.
    pub fn selection_anchor(&self) -> (r: Option<WordCursor>)
        ensures
            r == (match *self {
                AppMode::Visual { selection_anchor, .. } => selection_anchor,
                AppMode::Normal => None,
            }),
    {
        match self {
            AppMode::Visual { selection_anchor, .. } => *selection_anchor,
            AppMode::Normal => None,
        }
    }

    /// Whether a selection anchor is set.
    pub fn has_selection(&self) -> (r: bool)
        ensures
            r == (*self matches AppMode::Visual { selection_anchor: Some(_), .. }),
    {
        match self {
            AppMode::Visual { selection_anchor: Some(_), .. } => true,
            _ => false,
        }
    }

    /// Visual mode with the cursor at `cursor` and no selection.
    pub fn enter_visual(cursor: WordCursor) -> (r: Self)
        ensures
            r == (AppMode::Visual { cursor, selection_anchor: None }),
    {
        AppMode::Visual { cursor, selection_anchor: None }
    }

    /// Normal mode.
    pub fn exit_to_normal() -> (r: Self)
        ensures
            r == AppMode::Normal,
    {
        AppMode::Normal
    }

    /// Moves the cursor; has no effect in Normal mode.
    pub fn set_cursor(&mut self, new_cursor: WordCursor)
        ensures
            *final(self) == spec_set_cursor(*old(self), new_cursor),
    {
        if let AppMode::Visual { cursor, .. } = self {
            *cursor = new_cursor;
        }
    }

    /// Sets the anchor at the cursor when none is set, and clears it otherwise;
    /// has no effect in Normal mode.
    pub fn toggle_selection(&mut self)
        ensures
            *final(self) == spec_toggle_selection(*old(self)),
    {
        if let AppMode::Visual { cursor, selection_anchor } = self {
            if selection_anchor.is_some() {
                *selection_anchor = None;
            } else {
                *selection_anchor = Some(*cursor);
            }
        }
    }

    /// Clears the selection anchor; has no effect in Normal mode.
    pub fn clear_selection(&mut self)
        ensures
            *final(self) == (match *old(self) {
                AppMode::Visual { cursor, .. } => AppMode::Visual { cursor, selection_anchor: None },
                AppMode::Normal => AppMode::Normal,
            }),
    {
        if let AppMode::Visual { selection_anchor, .. } = self {
            *selection_anchor = None;
        }
    }

    /// The selection as (start, end) in document order, or None when no anchor is set.
    pub fn selection_range(&self) -> (r: Option<(WordCursor, WordCursor)>)
        ensures
            r == spec_selection_range(*self),
    {
        match self {
            AppMode::Visual { cursor, selection_anchor: Some(anchor) } => {
                let (start, end) = if anchor.page_index < cursor.page_index || (anchor.page_index
                    == cursor.page_index && anchor.word_index <= cursor.word_index) {
                    (*anchor, *cursor)
                } else {
                    (*cursor, *anchor)
                };
                Some((start, end))
            },
            _ => None,
        }
    }

    /// The name of the mode shown to the user.
    pub fn display_name(&self) -> (r: &'static str)
        ensures
            *self is Normal ==> r@ == "NORMAL"@,
            *self is Visual ==> r@ == "VISUAL"@,
    {
        match self {
            AppMode::Normal => "NORMAL",
            AppMode::Visual { .. } => "VISUAL",
        }
    }
}

/// Toggling the selection twice from a mode without an anchor gives back that mode.
pub proof fn lemma_toggle_selection_twice(m: AppMode)
    requires
        !(m matches AppMode::Visual { selection_anchor: Some(_), .. }),
    ensures
        spec_toggle_selection(spec_toggle_selection(m)) == m,
{
}

/// The selection range is in document order, its two ends are the anchor and the cursor,
/// and it exists exactly when an anchor is set.
pub proof fn lemma_selection_range_ordered(m: AppMode)
    ensures
        spec_selection_range(m) is Some <==> (m matches AppMode::Visual {
            selection_anchor: Some(_),
            ..
        }),
        spec_selection_range(m) matches Some((s, e)) ==> cursor_le(s, e),
        m matches AppMode::Visual { cursor, selection_anchor: Some(a) } ==> (spec_selection_range(
            m,
        ) == Some((a, cursor)) || spec_selection_range(m) == Some((cursor, a))),
{
}

/// Setting the anchor and then moving the cursor makes the selection run from the earlier
/// of the old and the new cursor position to the later.
pub proof fn lemma_toggle_then_move_selects(c: WordCursor, c2: WordCursor)
    ensures
        spec_selection_range(
            spec_set_cursor(spec_toggle_selection(AppMode::Visual { cursor: c, selection_anchor: None }), c2),
        ) == if cursor_le(c, c2) {
            Some((c, c2))
        } else {
            Some((c2, c))
        },
{
}

} // verus!
