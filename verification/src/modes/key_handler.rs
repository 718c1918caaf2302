use vstd::prelude::*;
use crate::modes::input_state::{InputState, spec_display_suffix};
use crate::text::{decimal, push_decimal, push_str};

verus! {

/// The abstract state of a key handler: the pending multi-key sequence and the count
/// typed before a command.
pub struct KeyHandlerView {
    pub input_state: InputState,
    pub pending_count: Option<u32>,
}

/// The input state machine of the keyboard commands: multi-key sequences (`g`, `f`, `F`,
/// `[`, `]` prefixes) and counts typed before a command (`42G`, `5j`).
pub struct KeyHandler {
    input_state: InputState,
    pending_count: Option<u32>,
}

/// The count after typing the digit `d`: the digit appended to the count, or the count
/// kept as it was when the result would not fit in `u32`.
pub open spec fn accumulated_count(p: Option<u32>, d: u32) -> u32 {
    match p {
        Some(c) => if c * 10 + d <= u32::MAX {
            (c * 10 + d) as u32
        } else {
            c
        },
        None => d,
    }
}

/// The status-bar text of a handler: the count typed so far followed by the pending keys.
pub open spec fn spec_status_text(v: KeyHandlerView) -> Seq<char> {
    match v.pending_count {
        Some(c) => decimal(c as nat) + spec_display_suffix(v.input_state),
        None => spec_display_suffix(v.input_state),
    }
}

impl View for KeyHandler {
    type V = KeyHandlerView;

    closed spec fn view(&self) -> KeyHandlerView {
        KeyHandlerView { input_state: self.input_state, pending_count: self.pending_count }
    }
}

impl Default for KeyHandler {
    fn default() -> (r: Self)
        ensures
            r@ == (KeyHandlerView { input_state: InputState::Ready, pending_count: None }),
    {
        KeyHandler::new()
    }
}

impl KeyHandler {
    /// A handler with no pending input.
    pub fn new() -> (r: Self)
        ensures
            r@ == (KeyHandlerView { input_state: InputState::Ready, pending_count: None }),
    {
        KeyHandler { input_state: InputState::Ready, pending_count: None }
    }

    /// The pending multi-key state.
    pub fn input_state(&self) -> (r: InputState)
        ensures
            r == self@.input_state,
    {
        self.input_state
    }

    /// Sets the pending multi-key state; returns whether it changed, that is whether the
    /// status text must be announced again.
    pub fn set_input_state(&mut self, state: InputState) -> (changed: bool)
        ensures
            final(self)@ == (KeyHandlerView { input_state: state, ..old(self)@ }),
            changed == (old(self)@.input_state != state),
    {
        let changed = self.input_state != state;
        self.input_state = state;
        changed
    }

    /// The count for the next command: the typed count, 1 when none was typed.
    pub fn count(&self) -> (r: u32)
        ensures
            r == (match self@.pending_count {
                Some(c) => c,
                None => 1,
            }),
    {
        match self.pending_count {
            Some(c) => c,
            None => 1,
        }
    }

    /// The typed count, None when none was typed.
    pub fn pending_count(&self) -> (r: Option<u32>)
        ensures
            r == self@.pending_count,
    {
        self.pending_count
    }

    /// Sets the typed count; returns whether it changed.
    pub fn set_pending_count(&mut self, count: Option<u32>) -> (changed: bool)
        ensures
            final(self)@ == (KeyHandlerView { pending_count: count, ..old(self)@ }),
            changed == (old(self)@.pending_count != count),
    {
        let changed = self.pending_count != count;
        self.pending_count = count;
        changed
    }

    /// Appends a typed digit to the count; the count is kept unchanged when the result
    /// would not fit in `u32`.
    pub fn accumulate_digit(&mut self, digit: u32)
        ensures
            final(self)@ == (KeyHandlerView {
                pending_count: Some(accumulated_count(old(self)@.pending_count, digit)),
                ..old(self)@
            }),
    {
        let new_count = match self.pending_count {
            Some(current) => match current.checked_mul(10) {
                Some(v) => match v.checked_add(digit) {
                    Some(w) => w,
                    None => current,
                },
                None => current,
            },
            None => digit,
        };
        self.set_pending_count(Some(new_count));
    }

    /// Clears the pending sequence and the count.
    pub fn reset(&mut self)
        ensures
            final(self)@ == (KeyHandlerView { input_state: InputState::Ready, pending_count: None }),
    {
        self.set_input_state(InputState::Ready);
        self.set_pending_count(None);
    }

    /// Clears the pending sequence and keeps the count.
    pub fn reset_input_state(&mut self)
        ensures
            final(self)@ == (KeyHandlerView { input_state: InputState::Ready, ..old(self)@ }),
    {
        self.set_input_state(InputState::Ready);
    }

    /// Clears the count and keeps the pending sequence.
    pub fn reset_count(&mut self)
        ensures
            final(self)@ == (KeyHandlerView { pending_count: None, ..old(self)@ }),
    {
        self.set_pending_count(None);
    }

    /// Whether a sequence or a count is pending.
    pub fn has_pending_state(&self) -> (r: bool)
        ensures
            r == (!(self@.input_state is Ready) || self@.pending_count is Some),
    {
        self.input_state.is_pending() || self.pending_count.is_some()
    }

    /// The status-bar text: the typed count followed by the pending keys, such as "42g".
    pub fn status_text(&self) -> (r: String)
        ensures
            r@ == spec_status_text(self@),
    {
        let mut s = String::new();
        match self.pending_count {
            Some(c) => push_decimal(&mut s, c as u64),
            None => {},
        }
        push_str(&mut s, self.input_state.display_suffix());
        s
    }
}

/// The number that a sequence of decimal digits spells.
pub open spec fn digits_value(ds: Seq<u32>) -> nat
    decreases ds.len(),
{
    if ds.len() == 0 {
        0
    } else {
        digits_value(ds.drop_last()) * 10 + ds.last() as nat
    }
}

/// The count after typing a sequence of digits, starting from `p`.
pub open spec fn count_after_digits(p: Option<u32>, ds: Seq<u32>) -> Option<u32>
    decreases ds.len(),
{
    if ds.len() == 0 {
        p
    } else {
        Some(accumulated_count(count_after_digits(p, ds.drop_last()), ds.last()))
    }
}

/// Typing the digits of a number that fits in `u32`, with no count pending, makes that
/// number the count.
pub proof fn lemma_typed_digits_make_count(ds: Seq<u32>)
    requires
        ds.len() > 0,
        forall|i: int| 0 <= i < ds.len() ==> ds[i] < 10,
        digits_value(ds) <= u32::MAX,
    ensures
        count_after_digits(None, ds) == Some(digits_value(ds) as u32),
    decreases ds.len(),
{
    if ds.len() > 1 {
        let pre = ds.drop_last();
        assert forall|i: int| 0 <= i < pre.len() implies pre[i] < 10 by {
            assert(pre[i] == ds[i]);
        }
        assert(digits_value(pre) <= digits_value(ds)) by (nonlinear_arith)
            requires
                digits_value(ds) == digits_value(pre) * 10 + ds.last() as nat,
        ;
        lemma_typed_digits_make_count(pre);
        let vp = digits_value(pre);
        assert(count_after_digits(None, pre) == Some(vp as u32));
        assert(vp * 10 + ds.last() <= u32::MAX);
        assert(accumulated_count(Some(vp as u32), ds.last()) == (vp * 10 + ds.last()) as u32);
    } else {
        assert(ds.drop_last().len() == 0);
        assert(digits_value(ds.drop_last()) == 0);
        assert(count_after_digits(None, ds.drop_last()) == None::<u32>);
    }
}

} // verus!
