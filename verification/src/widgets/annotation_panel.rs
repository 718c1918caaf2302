//! The annotation panel: the preview of the annotated text and the keys of the note
//! editor.
use vstd::prelude::*;
use crate::modes::keys::{CONTROL_MASK, KEY_ESCAPE, KEY_RETURN};
use crate::text::{chars_of, push_char, push_str};

verus! {

/// The characters of the preview: at most the first hundred, with line breaks shown as
/// spaces.
pub open spec fn preview_chars(text: Seq<char>) -> Seq<char> {
    let n = if text.len() < 100 {
        text.len() as int
    } else {
        100
    };
    text.take(n).map_values(|c: char| if c == '\n' {
        ' '
    } else {
        c
    })
}

/// The preview of the annotated text: in double quotes, cut after a hundred characters
/// with an ellipsis when the text is longer than a hundred bytes (`str::len`).
pub open spec fn selected_text_preview(text: &str) -> Seq<char> {
    "\""@ + preview_chars(text@) + if text.len() > 100 {
        "...\""@
    } else {
        "\""@
    }
}

/// The preview shown for the annotated text, as `selected_text_preview` says.
pub fn selected_text_display(text: &str) -> (r: String)
    ensures
        r@ == selected_text_preview(text),
{
    let chars = chars_of(text);
    let n: usize = if chars.len() < 100 {
        chars.len()
    } else {
        100
    };
    let mut out = String::new();
    push_str(&mut out, "\"");
    let ghost head = out@;
    let mut k: usize = 0;
    while k < n
        invariant
            k <= n <= chars.len(),
            n <= 100,
            out@ == head + chars@.take(k as int).map_values(|c: char| if c == '\n' {
                ' '
            } else {
                c
            }),
        decreases n - k,
    {
        let c = chars[k];
        if c == '\n' {
            push_char(&mut out, ' ');
        } else {
            push_char(&mut out, c);
        }
        assert(chars@.take(k + 1) =~= chars@.take(k as int).push(c));
        assert(out@ =~= head + chars@.take(k + 1).map_values(|c: char| if c == '\n' {
            ' '
        } else {
            c
        }));
        k = k + 1;
    }
    let ghost body = out@;
    assert(body == "\""@ + preview_chars(text@)) by {
        assert(chars@ == text@);
    }
    if text.len() > 100 {
        push_str(&mut out, "...\"");
    } else {
        push_str(&mut out, "\"");
    }
    out
}

/// What a key does in the note editor.
#[derive(Debug, Clone, Copy, PartialEq, Eq, Structural)]
pub enum PanelKey {
    /// Close the panel without saving (Escape).
    Cancel,
    /// Save the note (Ctrl+Return; Return alone starts a new line).
    Save,
    /// An ordinary key for the editor.
    Pass,
}

/// What a key pressed in the note editor does, given its key value and modifier mask.
pub fn annotation_panel_key(keyval: u32, modifiers: u32) -> (r: PanelKey)
    ensures
        keyval == KEY_ESCAPE ==> r == PanelKey::Cancel,
        keyval == KEY_RETURN && modifiers & CONTROL_MASK != 0 ==> r == PanelKey::Save,
        keyval != KEY_ESCAPE && !(keyval == KEY_RETURN && modifiers & CONTROL_MASK != 0) ==> r
            == PanelKey::Pass,
{
    if keyval == KEY_ESCAPE {
        PanelKey::Cancel
    } else if keyval == KEY_RETURN && modifiers & CONTROL_MASK != 0 {
        PanelKey::Save
    } else {
        PanelKey::Pass
    }
}

} // verus!
