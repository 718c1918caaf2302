use vstd::prelude::*;
use crate::modes::app_mode::WordCursor;

verus! {

/// Direction of a scroll.
#[derive(Debug, Clone, Copy, PartialEq, Eq, Structural)]
pub enum ScrollDir {
    Up,
    Down,
}

/// An action that a key press asks the window to carry out.
/// Viewport scrolls are given in whole percent of the visible area.
#[derive(Debug, Clone, Copy, PartialEq, Eq)]
pub enum KeyAction {
    /// Handled, nothing to do.
    Empty,
    OpenFile,
    OpenSettings,
    ExportAnnotations,
    ToggleHeaderBar,
    ToggleTOC,
    ScrollHalfPage(ScrollDir),
    ScrollViewport { x_percent: i32, y_percent: i32 },
    ScrollToPage { page: u32 },
    ScrollToStart,
    ScrollToEnd,
    ScrollTOC(ScrollDir),
    SelectChapter,
    SelectTocRow,
    ScrollTocToStart,
    ScrollTocToEnd,
    EditTocAnnotation,
    DeleteTocAnnotation,
    EnterVisual,
    ExitVisual,
    CursorMoved { cursor: WordCursor },
    ToggleSelection,
    ClearSelection,
    ShowDefinition { cursor: WordCursor },
    Translate { start: WordCursor, end: WordCursor },
    CopyToClipboard { start: WordCursor, end: WordCursor },
    Annotate { cursor: WordCursor, selection: Option<(WordCursor, WordCursor)> },
    FindForward { letter: char },
    FindBackward { letter: char },
    SearchAnnotationForward,
    SearchAnnotationBackward,
    ZoomIn,
    ZoomOut,
}

/// The outcome of offering a key to one of the key processors.
#[derive(Debug, Clone, Copy, PartialEq, Eq)]
pub enum KeyResult {
    /// The key was handled; carry out this action.
    Action(KeyAction),
    /// The key was handled and changed the pending input; nothing to carry out.
    StateChanged,
    /// The key is not for this processor.
    Unhandled,
}

impl KeyResult {
    /// Whether the key was handled.
    pub fn is_handled(&self) -> (r: bool)
        ensures
            r == !(*self is Unhandled),
    {
        match self {
            KeyResult::Unhandled => false,
            _ => true,
        }
    }
}

} // verus!
