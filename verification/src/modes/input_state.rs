use vstd::prelude::*;

verus! {

/// The state of the key handler between the keys of a multi-key sequence.
#[derive(Debug, Clone, Copy, PartialEq, Eq, Structural)]
pub enum InputState {
    /// Ready for a new command.
    Ready,
    /// Waiting for a second `g` (`gg` goes to the start, `[count]gg` to a page).
    PendingG,
    /// Waiting for the letter to find forward (`f` + letter).
    PendingFForward,
    /// Waiting for the letter to find backward (`F` + letter).
    PendingFBackward,
    /// Waiting for the next command (`n` + key).
    PendingNext,
    /// Waiting for the kind of element to jump forward to (`]` + `a`: next annotation).
    PendingElementForward,
    /// Waiting for the kind of element to jump backward to (`[` + `a`: previous annotation).
    PendingElementBackward,
}

impl Default for InputState {
    fn default() -> (r: Self)
        ensures
            r == InputState::Ready,
    {
        InputState::Ready
    }
}

/// The text shown in the status bar for a state: the keys typed so far.
pub open spec fn spec_display_suffix(s: InputState) -> Seq<char> {
    match s {
        InputState::Ready => ""@,
        InputState::PendingG => "g"@,
        InputState::PendingFForward => "f"@,
        InputState::PendingFBackward => "F"@,
        InputState::PendingNext => "n"@,
        InputState::PendingElementForward => "]"@,
        InputState::PendingElementBackward => "["@,
    }
}

impl InputState {
    /// Whether the state waits for more input.
    pub fn is_pending(&self) -> (r: bool)
        ensures
            r == !(*self is Ready),
    {
        match self {
            InputState::Ready => false,
            _ => true,
        }
    }

    /// The status-bar text for the state.
    pub fn display_suffix(&self) -> (r: &'static str)
        ensures
            r@ == spec_display_suffix(*self),
    {
        match self {
            InputState::Ready => "",
            InputState::PendingG => "g",
            InputState::PendingFForward => "f",
            InputState::PendingFBackward => "F",
            InputState::PendingNext => "n",
            InputState::PendingElementForward => "]",
            InputState::PendingElementBackward => "[",
        }
    }
}

} // verus!
