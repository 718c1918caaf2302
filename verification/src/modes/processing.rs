//! The key processors: what a key press means in each situation.
use vstd::prelude::*;
use crate::modes::app_mode::{AppMode, WordCursor, spec_selection_range};
use crate::modes::input_state::InputState;
use crate::modes::key_action::{KeyAction, KeyResult, ScrollDir};
use crate::modes::key_handler::{
    KeyHandler, KeyHandlerView, accumulated_count, count_after_digits, digits_value,
    lemma_typed_digits_make_count,
};
use crate::modes::keys::{
    CONTROL_MASK, KEY_0, KEY_9, KEY_DOLLAR, KEY_A, KEY_B, KEY_BRACKET_LEFT, KEY_BRACKET_RIGHT, KEY_D, KEY_DOWN,
    KEY_E, KEY_EQUAL, KEY_ESCAPE, KEY_F, KEY_G, KEY_H, KEY_J, KEY_K, KEY_KP_0, KEY_KP_9, KEY_L,
    KEY_LEFT, KEY_MINUS, KEY_O, KEY_P, KEY_PLUS, KEY_RETURN, KEY_RIGHT, KEY_S, KEY_TAB, KEY_U,
    KEY_UP, KEY_UPPER_F, KEY_UPPER_G, KEY_V, KEY_Y,
};
use crate::text_map::navigation::{
    NavDirection, lemma_down_moves_to_line_below, lemma_up_moves_to_line_above,
    lemma_word_in_some_line, nav_spec, navigate, nearest_on_its_line,
};
use crate::text_map::page_text_map::views;
use crate::text_map::text_map_cache::{CacheView, TextMapCache, cache_wf};
use crate::text_map::word_info::LineInfo;
use crate::widgets::toc_panel::TocMode;

verus! {

/// The digit a key types, main keyboard or keypad.
pub open spec fn key_digit(keyval: u32) -> Option<u32> {
    if KEY_0 <= keyval <= KEY_9 {
        Some((keyval - KEY_0) as u32)
    } else if KEY_KP_0 <= keyval <= KEY_KP_9 {
        Some((keyval - KEY_KP_0) as u32)
    } else {
        None
    }
}

/// The digit a key types, if it types one.
pub fn get_number_from_key(keyval: u32) -> (r: Option<u32>)
    ensures
        r == key_digit(keyval),
{
    if KEY_0 <= keyval && keyval <= KEY_9 {
        Some(keyval - KEY_0)
    } else if KEY_KP_0 <= keyval && keyval <= KEY_KP_9 {
        Some(keyval - KEY_KP_0)
    } else {
        None
    }
}

/// The handler with no pending input.
pub open spec fn ready() -> KeyHandlerView {
    KeyHandlerView { input_state: InputState::Ready, pending_count: None }
}

/// The handler after typing a digit.
pub open spec fn with_digit(h: KeyHandlerView, d: u32) -> KeyHandlerView {
    KeyHandlerView { pending_count: Some(accumulated_count(h.pending_count, d)), ..h }
}

/// The handler waiting in state `s`.
pub open spec fn with_state(h: KeyHandlerView, s: InputState) -> KeyHandlerView {
    KeyHandlerView { input_state: s, ..h }
}

/// Whether the control key is held in a modifier mask.
pub open spec fn control_held(modifiers: u32) -> bool {
    modifiers & CONTROL_MASK != 0
}

/// What a key means while the table of contents is shown, and the handler afterwards.
pub open spec fn toc_key_spec(h: KeyHandlerView, keyval: u32, mode: TocMode) -> (KeyResult, KeyHandlerView) {
    if key_digit(keyval) is Some {
        (KeyResult::StateChanged, with_digit(h, key_digit(keyval)->0))
    } else if h.input_state is PendingG {
        if keyval == KEY_G {
            (KeyResult::Action(KeyAction::ScrollTocToStart), ready())
        } else {
            (KeyResult::Action(KeyAction::Empty), ready())
        }
    } else if keyval == KEY_ESCAPE {
        (KeyResult::Action(KeyAction::Empty), ready())
    } else if keyval == KEY_J || keyval == KEY_DOWN {
        (KeyResult::Action(KeyAction::ScrollTOC(ScrollDir::Down)), h)
    } else if keyval == KEY_K || keyval == KEY_UP {
        (KeyResult::Action(KeyAction::ScrollTOC(ScrollDir::Up)), h)
    } else if keyval == KEY_TAB {
        (KeyResult::Action(KeyAction::ToggleTOC), h)
    } else if keyval == KEY_RETURN {
        (KeyResult::Action(KeyAction::SelectTocRow), h)
    } else if keyval == KEY_G {
        (KeyResult::StateChanged, with_state(h, InputState::PendingG))
    } else if keyval == KEY_UPPER_G {
        (KeyResult::Action(KeyAction::ScrollTocToEnd), ready())
    } else if keyval == KEY_A && mode is Annotations {
        (KeyResult::Action(KeyAction::EditTocAnnotation), ready())
    } else if keyval == KEY_D && mode is Annotations {
        (KeyResult::Action(KeyAction::DeleteTocAnnotation), ready())
    } else {
        (KeyResult::Unhandled, h)
    }
}

/// Processes a key while the table of contents is shown: `j`/`k` move the selection (by
/// the typed count), `gg`/`G` go to the first/last entry, Enter jumps to the entry, Tab
/// switches the list, and in the annotations list `a` edits and `d` deletes the selected
/// annotation.
pub fn handle_toc_key(handler: &mut KeyHandler, keyval: u32, mode: TocMode) -> (r: KeyResult)
    ensures
        (r, final(handler)@) == toc_key_spec(old(handler)@, keyval, mode),
{
    if let Some(digit) = get_number_from_key(keyval) {
        handler.accumulate_digit(digit);
        return KeyResult::StateChanged;
    }
    if handler.input_state() == InputState::PendingG {
        handler.reset();
        if keyval == KEY_G {
            return KeyResult::Action(KeyAction::ScrollTocToStart);
        } else {
            return KeyResult::Action(KeyAction::Empty);
        }
    }
    if keyval == KEY_ESCAPE {
        handler.reset();
        KeyResult::Action(KeyAction::Empty)
    } else if keyval == KEY_J || keyval == KEY_DOWN {
        KeyResult::Action(KeyAction::ScrollTOC(ScrollDir::Down))
    } else if keyval == KEY_K || keyval == KEY_UP {
        KeyResult::Action(KeyAction::ScrollTOC(ScrollDir::Up))
    } else if keyval == KEY_TAB {
        KeyResult::Action(KeyAction::ToggleTOC)
    } else if keyval == KEY_RETURN {
        KeyResult::Action(KeyAction::SelectTocRow)
    } else if keyval == KEY_G {
        handler.set_input_state(InputState::PendingG);
        KeyResult::StateChanged
    } else if keyval == KEY_UPPER_G {
        handler.reset();
        KeyResult::Action(KeyAction::ScrollTocToEnd)
    } else if keyval == KEY_A && mode == TocMode::Annotations {
        handler.reset();
        KeyResult::Action(KeyAction::EditTocAnnotation)
    } else if keyval == KEY_D && mode == TocMode::Annotations {
        handler.reset();
        KeyResult::Action(KeyAction::DeleteTocAnnotation)
    } else {
        KeyResult::Unhandled
    }
}

/// Whether the key is `0` typed with no count pending: it is then left to the
/// mode-specific processors (in Visual mode it goes to the start of the line; in Normal
/// mode it starts a count).
pub open spec fn starts_line_key(h: KeyHandlerView, keyval: u32) -> bool {
    keyval == KEY_0 && h.pending_count is None
}

/// What a key means before the mode-specific processors, and the handler afterwards.
pub open spec fn pre_global_spec(h: KeyHandlerView, keyval: u32, modifiers: u32) -> (
    KeyResult,
    KeyHandlerView,
) {
    if control_held(modifiers) {
        if keyval == KEY_D {
            (KeyResult::Action(KeyAction::ScrollHalfPage(ScrollDir::Down)), h)
        } else if keyval == KEY_U {
            (KeyResult::Action(KeyAction::ScrollHalfPage(ScrollDir::Up)), h)
        } else {
            (KeyResult::Unhandled, h)
        }
    } else if h.input_state is PendingFForward || h.input_state is PendingFBackward
        || h.input_state is PendingElementForward || h.input_state is PendingElementBackward {
        (KeyResult::Unhandled, h)
    } else if h.input_state is PendingG {
        if keyval == KEY_G {
            match h.pending_count {
                Some(page) => (KeyResult::Action(KeyAction::ScrollToPage { page }), ready()),
                None => (KeyResult::Action(KeyAction::ScrollToStart), ready()),
            }
        } else {
            (KeyResult::Action(KeyAction::Empty), ready())
        }
    } else if key_digit(keyval) is Some && !starts_line_key(h, keyval) {
        (KeyResult::StateChanged, with_digit(h, key_digit(keyval)->0))
    } else if keyval == KEY_ESCAPE {
        (KeyResult::Action(KeyAction::Empty), ready())
    } else if keyval == KEY_TAB {
        (KeyResult::Action(KeyAction::ToggleTOC), h)
    } else if keyval == KEY_G {
        (KeyResult::StateChanged, with_state(h, InputState::PendingG))
    } else if keyval == KEY_UPPER_G {
        match h.pending_count {
            Some(page) => (KeyResult::Action(KeyAction::ScrollToPage { page }), ready()),
            None => (KeyResult::Action(KeyAction::ScrollToEnd), ready()),
        }
    } else {
        (KeyResult::Unhandled, h)
    }
}

/// Processes the keys handled before the mode-specific ones: Ctrl+d/Ctrl+u scroll half a
/// page, counts accumulate (a `0` with no count pending starts none and is left to the
/// mode), `gg`/`G` go to the start/end or, after a count, to that page,
/// Escape cancels pending input, Tab toggles the table of contents.
pub fn handle_pre_global_key(handler: &mut KeyHandler, keyval: u32, modifiers: u32) -> (r:
    KeyResult)
    ensures
        (r, final(handler)@) == pre_global_spec(old(handler)@, keyval, modifiers),
{
    if modifiers & CONTROL_MASK != 0 {
        if keyval == KEY_D {
            return KeyResult::Action(KeyAction::ScrollHalfPage(ScrollDir::Down));
        } else if keyval == KEY_U {
            return KeyResult::Action(KeyAction::ScrollHalfPage(ScrollDir::Up));
        } else {
            return KeyResult::Unhandled;
        }
    }
    let input_state = handler.input_state();
    match input_state {
        InputState::PendingFForward
        | InputState::PendingFBackward
        | InputState::PendingElementForward
        | InputState::PendingElementBackward => {
            return KeyResult::Unhandled;
        },
        _ => {},
    }
    if input_state == InputState::PendingG {
        if keyval == KEY_G {
            let count = handler.pending_count();
            handler.reset();
            return match count {
                Some(page) => KeyResult::Action(KeyAction::ScrollToPage { page }),
                None => KeyResult::Action(KeyAction::ScrollToStart),
            };
        } else {
            handler.reset();
            return KeyResult::Action(KeyAction::Empty);
        }
    }
    if let Some(digit) = get_number_from_key(keyval) {
        if !(keyval == KEY_0 && handler.pending_count().is_none()) {
            handler.accumulate_digit(digit);
            return KeyResult::StateChanged;
        }
    }
    if keyval == KEY_ESCAPE {
        handler.reset();
        KeyResult::Action(KeyAction::Empty)
    } else if keyval == KEY_TAB {
        KeyResult::Action(KeyAction::ToggleTOC)
    } else if keyval == KEY_G {
        handler.set_input_state(InputState::PendingG);
        KeyResult::StateChanged
    } else if keyval == KEY_UPPER_G {
        let count = handler.pending_count();
        handler.reset();
        match count {
            Some(page) => KeyResult::Action(KeyAction::ScrollToPage { page }),
            None => KeyResult::Action(KeyAction::ScrollToEnd),
        }
    } else {
        KeyResult::Unhandled
    }
}

/// The result of the last of a sequence of keys pressed without modifiers, through the
/// keys handled before the mode-specific ones, and the handler afterwards.
pub open spec fn pre_global_run(h: KeyHandlerView, keys: Seq<u32>) -> (KeyResult, KeyHandlerView)
    decreases keys.len(),
{
    if keys.len() == 0 {
        (KeyResult::Unhandled, h)
    } else {
        pre_global_spec(pre_global_run(h, keys.drop_last()).1, keys.last(), 0)
    }
}

/// The keys that type the digits `ds` on the main keyboard.
pub open spec fn digit_keys(ds: Seq<u32>) -> Seq<u32> {
    ds.map_values(|d: u32| (KEY_0 + d) as u32)
}

proof fn lemma_no_control()
    ensures
        !control_held(0),
{
    assert(0u32 & 4u32 == 0) by (bit_vector);
}

/// Typing the digits of a count (which does not begin with 0) from a handler with nothing
/// pending only builds up the count.
pub proof fn lemma_digit_keys_count(ds: Seq<u32>)
    requires
        forall|i: int| 0 <= i < ds.len() ==> ds[i] < 10,
        ds.len() > 0 ==> ds[0] > 0,
    ensures
        pre_global_run(ready(), digit_keys(ds)).1 == (KeyHandlerView {
            input_state: InputState::Ready,
            pending_count: count_after_digits(None, ds),
        }),
        ds.len() > 0 ==> pre_global_run(ready(), digit_keys(ds)).0 == KeyResult::StateChanged,
    decreases ds.len(),
{
    lemma_no_control();
    if ds.len() > 0 {
        let pre = ds.drop_last();
        assert forall|i: int| 0 <= i < pre.len() implies pre[i] < 10 by {
            assert(pre[i] == ds[i]);
        }
        if pre.len() > 0 {
            assert(pre[0] == ds[0]);
        }
        lemma_digit_keys_count(pre);
        assert(digit_keys(ds).drop_last() =~= digit_keys(pre));
        if pre.len() == 0 {
            assert(ds.last() == ds[0]);
        }
        assert(digit_keys(ds).last() == KEY_0 + ds.last());
        assert(key_digit((KEY_0 + ds.last()) as u32) == Some(ds.last()));
    } else {
        assert(digit_keys(ds) =~= Seq::<u32>::empty());
    }
}

/// `G` goes to the end of the document; a count typed before it (`42G`) goes to that page
/// instead. Either way nothing is left pending.
pub proof fn lemma_count_then_upper_g(ds: Seq<u32>)
    requires
        forall|i: int| 0 <= i < ds.len() ==> ds[i] < 10,
        ds.len() > 0 ==> ds[0] > 0,
        digits_value(ds) <= u32::MAX,
    ensures
        ds.len() == 0 ==> pre_global_run(ready(), digit_keys(ds).push(KEY_UPPER_G)) == (
            KeyResult::Action(KeyAction::ScrollToEnd),
            ready(),
        ),
        ds.len() > 0 ==> pre_global_run(ready(), digit_keys(ds).push(KEY_UPPER_G)) == (
            KeyResult::Action(KeyAction::ScrollToPage { page: digits_value(ds) as u32 }),
            ready(),
        ),
{
    lemma_no_control();
    lemma_digit_keys_count(ds);
    let keys = digit_keys(ds).push(KEY_UPPER_G);
    assert(keys.drop_last() =~= digit_keys(ds));
    if ds.len() > 0 {
        lemma_typed_digits_make_count(ds);
    }
}

/// `gg` goes to the start of the document; a count typed before it (`42gg`) goes to that
/// page instead. Either way nothing is left pending.
pub proof fn lemma_count_then_gg(ds: Seq<u32>)
    requires
        forall|i: int| 0 <= i < ds.len() ==> ds[i] < 10,
        ds.len() > 0 ==> ds[0] > 0,
        digits_value(ds) <= u32::MAX,
    ensures
        ds.len() == 0 ==> pre_global_run(ready(), digit_keys(ds).push(KEY_G).push(KEY_G)) == (
            KeyResult::Action(KeyAction::ScrollToStart),
            ready(),
        ),
        ds.len() > 0 ==> pre_global_run(ready(), digit_keys(ds).push(KEY_G).push(KEY_G)) == (
            KeyResult::Action(KeyAction::ScrollToPage { page: digits_value(ds) as u32 }),
            ready(),
        ),
{
    lemma_no_control();
    lemma_digit_keys_count(ds);
    let one = digit_keys(ds).push(KEY_G);
    let two = one.push(KEY_G);
    assert(one.drop_last() =~= digit_keys(ds));
    assert(two.drop_last() =~= one);
    let h0 = pre_global_run(ready(), digit_keys(ds)).1;
    assert(pre_global_run(ready(), one) == pre_global_spec(h0, KEY_G, 0));
    assert(pre_global_run(ready(), two) == pre_global_spec(pre_global_run(ready(), one).1, KEY_G, 0));
    if ds.len() > 0 {
        lemma_typed_digits_make_count(ds);
    }
}

/// After `g`, any key other than a second `g` cancels the pending `g` and the count.
pub proof fn lemma_pending_g_cancelled(h: KeyHandlerView, keyval: u32)
    requires
        h.input_state is PendingG,
        keyval != KEY_G,
    ensures
        pre_global_spec(h, keyval, 0) == (KeyResult::Action(KeyAction::Empty), ready()),
{
    lemma_no_control();
}

/// Escape cancels whatever count or `g` is pending.
pub proof fn lemma_escape_cancels(h: KeyHandlerView)
    requires
        h.input_state is Ready || h.input_state is PendingG,
    ensures
        pre_global_spec(h, KEY_ESCAPE, 0) == (KeyResult::Action(KeyAction::Empty), ready()),
{
    lemma_no_control();
}

/// What a key means after the mode-specific processors.
pub open spec fn post_global_action(keyval: u32) -> Option<KeyAction> {
    if keyval == KEY_O {
        Some(KeyAction::OpenFile)
    } else if keyval == KEY_B {
        Some(KeyAction::ToggleHeaderBar)
    } else if keyval == KEY_P {
        Some(KeyAction::OpenSettings)
    } else if keyval == KEY_E {
        Some(KeyAction::ExportAnnotations)
    } else {
        None
    }
}

/// Processes the keys handled after the mode-specific ones: `o` opens a file, `b` toggles
/// the header bar, `p` opens the settings, `e` exports the annotations. A handled key
/// clears the pending input.
pub fn handle_post_global_key(handler: &mut KeyHandler, keyval: u32) -> (r: KeyResult)
    ensures
        post_global_action(keyval) matches Some(a) ==> r == KeyResult::Action(a) && final(handler)@ == ready(),
        post_global_action(keyval) is None ==> r == KeyResult::Unhandled && final(handler)@
            == old(handler)@,
{
    let result = if keyval == KEY_O {
        KeyResult::Action(KeyAction::OpenFile)
    } else if keyval == KEY_B {
        KeyResult::Action(KeyAction::ToggleHeaderBar)
    } else if keyval == KEY_P {
        KeyResult::Action(KeyAction::OpenSettings)
    } else if keyval == KEY_E {
        KeyResult::Action(KeyAction::ExportAnnotations)
    } else {
        KeyResult::Unhandled
    };
    if let KeyResult::Action(_) = &result {
        handler.reset();
    }
    result
}

/// What a key means in Normal mode.
pub open spec fn normal_mode_action(keyval: u32) -> Option<KeyAction> {
    if keyval == KEY_H || keyval == KEY_LEFT {
        Some(KeyAction::ScrollViewport { x_percent: -10i32, y_percent: 0 })
    } else if keyval == KEY_L || keyval == KEY_RIGHT {
        Some(KeyAction::ScrollViewport { x_percent: 10, y_percent: 0 })
    } else if keyval == KEY_K || keyval == KEY_UP {
        Some(KeyAction::ScrollViewport { x_percent: 0, y_percent: -10i32 })
    } else if keyval == KEY_J || keyval == KEY_DOWN {
        Some(KeyAction::ScrollViewport { x_percent: 0, y_percent: 10 })
    } else if keyval == KEY_V {
        Some(KeyAction::EnterVisual)
    } else if keyval == KEY_PLUS || keyval == KEY_EQUAL {
        Some(KeyAction::ZoomIn)
    } else if keyval == KEY_MINUS {
        Some(KeyAction::ZoomOut)
    } else {
        None
    }
}

/// What a key means in Normal mode, and the handler afterwards: a `0` with no count
/// pending starts a count; a key with an action clears the pending input.
pub open spec fn normal_key_spec(h: KeyHandlerView, keyval: u32) -> (KeyResult, KeyHandlerView) {
    if starts_line_key(h, keyval) {
        (KeyResult::StateChanged, with_digit(h, 0))
    } else {
        match normal_mode_action(keyval) {
            Some(a) => (KeyResult::Action(a), ready()),
            None => (KeyResult::Unhandled, h),
        }
    }
}

/// In Normal mode the arrow keys and `h`/`j`/`k`/`l` scroll the view in their own
/// directions: `j` and Down by a positive amount downwards, `k` and Up by the same amount
/// upwards, `l` and Right by a positive amount to the right, `h` and Left by the same amount
/// to the left; each clears what was pending.
pub proof fn lemma_normal_scroll_directions(h: KeyHandlerView)
    ensures
        normal_key_spec(h, KEY_J).1 == ready() && normal_key_spec(h, KEY_K).1 == ready(),
        normal_key_spec(h, KEY_L).1 == ready() && normal_key_spec(h, KEY_H).1 == ready(),
        normal_key_spec(h, KEY_J).0 matches KeyResult::Action(
            KeyAction::ScrollViewport { x_percent, y_percent },
        ) && x_percent == 0 && y_percent > 0 && normal_key_spec(h, KEY_K).0 == KeyResult::Action(
            KeyAction::ScrollViewport { x_percent: 0, y_percent: (-y_percent) as i32 },
        ),
        normal_key_spec(h, KEY_L).0 matches KeyResult::Action(
            KeyAction::ScrollViewport { x_percent, y_percent },
        ) && y_percent == 0 && x_percent > 0 && normal_key_spec(h, KEY_H).0 == KeyResult::Action(
            KeyAction::ScrollViewport { x_percent: (-x_percent) as i32, y_percent: 0 },
        ),
        normal_key_spec(h, KEY_DOWN) == normal_key_spec(h, KEY_J),
        normal_key_spec(h, KEY_UP) == normal_key_spec(h, KEY_K),
        normal_key_spec(h, KEY_RIGHT) == normal_key_spec(h, KEY_L),
        normal_key_spec(h, KEY_LEFT) == normal_key_spec(h, KEY_H),
{
}

/// In Normal mode a `0` typed with nothing pending passes the keys handled first and then
/// starts a count of 0, so that `0G` goes to page 0.
pub proof fn lemma_normal_zero_count()
    ensures
        pre_global_spec(ready(), KEY_0, 0) == (KeyResult::Unhandled, ready()),
        normal_key_spec(ready(), KEY_0) == (
            KeyResult::StateChanged,
            KeyHandlerView { input_state: InputState::Ready, pending_count: Some(0) },
        ),
        pre_global_spec(
            KeyHandlerView { input_state: InputState::Ready, pending_count: Some(0) },
            KEY_UPPER_G,
            0,
        ) == (KeyResult::Action(KeyAction::ScrollToPage { page: 0 }), ready()),
{
    lemma_no_control();
}

/// Processes a key in Normal mode: `h`/`j`/`k`/`l` scroll by a tenth of the view, `v` enters
/// Visual mode, `+`/`-` zoom, and a `0` with no count pending starts a count. A key with
/// an action clears the pending input.
pub fn handle_normal_mode_key(handler: &mut KeyHandler, keyval: u32) -> (r: KeyResult)
    ensures
        (r, final(handler)@) == normal_key_spec(old(handler)@, keyval),
{
    if keyval == KEY_0 && handler.pending_count().is_none() {
        handler.accumulate_digit(0);
        return KeyResult::StateChanged;
    }
    let result = if keyval == KEY_H || keyval == KEY_LEFT {
        KeyResult::Action(KeyAction::ScrollViewport { x_percent: -10, y_percent: 0 })
    } else if keyval == KEY_L || keyval == KEY_RIGHT {
        KeyResult::Action(KeyAction::ScrollViewport { x_percent: 10, y_percent: 0 })
    } else if keyval == KEY_K || keyval == KEY_UP {
        KeyResult::Action(KeyAction::ScrollViewport { x_percent: 0, y_percent: -10 })
    } else if keyval == KEY_J || keyval == KEY_DOWN {
        KeyResult::Action(KeyAction::ScrollViewport { x_percent: 0, y_percent: 10 })
    } else if keyval == KEY_V {
        KeyResult::Action(KeyAction::EnterVisual)
    } else if keyval == KEY_PLUS || keyval == KEY_EQUAL {
        KeyResult::Action(KeyAction::ZoomIn)
    } else if keyval == KEY_MINUS {
        KeyResult::Action(KeyAction::ZoomOut)
    } else {
        KeyResult::Unhandled
    };
    if let KeyResult::Action(_) = &result {
        handler.reset();
    }
    result
}

/// The cursor after `k` moves in `dir`, stopping at the first move that is not possible.
pub open spec fn nav_repeat(c: CacheView, cur: WordCursor, dir: NavDirection, k: nat) -> WordCursor
    decreases k,
{
    if k == 0 {
        cur
    } else {
        match nav_spec(c, cur.page_index, cur.word_index, dir) {
            Some(r) => nav_repeat(
                c,
                WordCursor { page_index: r.page_index, word_index: r.word_index },
                dir,
                (k - 1) as nat,
            ),
            None => cur,
        }
    }
}

/// The cursor after up to `count` moves in `direction`; None when it did not move.
pub fn navigate_with_count(
    cache: &TextMapCache,
    start_cursor: WordCursor,
    direction: NavDirection,
    count: u32,
) -> (r: Option<WordCursor>)
    requires
        cache.wf(),
    ensures
        ({
            let end = nav_repeat(cache@, start_cursor, direction, count as nat);
            if end != start_cursor {
                r == Some(end)
            } else {
                r is None
            }
        }),
{
    let mut current = start_cursor;
    let mut i: u32 = 0;
    while i < count
        invariant
            cache.wf(),
            i <= count,
            nav_repeat(cache@, start_cursor, direction, count as nat) == nav_repeat(
                cache@,
                current,
                direction,
                (count - i) as nat,
            ),
        decreases count - i,
    {
        match navigate(cache, current.page_index, current.word_index, direction) {
            Some(result) => {
                current = WordCursor::new(result.page_index, result.word_index);
            },
            None => {
                return if current != start_cursor {
                    Some(current)
                } else {
                    None
                };
            },
        }
        i = i + 1;
    }
    if current != start_cursor {
        Some(current)
    } else {
        None
    }
}

/// The action of a move of the cursor: the new cursor, or nothing when it did not move.
pub open spec fn move_action(c: CacheView, cursor: WordCursor, dir: NavDirection, count: nat) -> KeyAction {
    let end = nav_repeat(c, cursor, dir, count);
    if end != cursor {
        KeyAction::CursorMoved { cursor: end }
    } else {
        KeyAction::Empty
    }
}

/// The line that the cursor's word lies on, read from the cached map of its page; None
/// when the page is not cached or has no such word.
pub open spec fn cursor_line(c: CacheView, cursor: WordCursor) -> Option<LineInfo> {
    if c.pages.contains_key(cursor.page_index) && cursor.word_index < c.pages[cursor.page_index].words.len() {
        let m = c.pages[cursor.page_index];
        let l = m.words@[cursor.word_index as int].line_index;
        if l < m.lines.len() {
            Some(m.lines@[l as int])
        } else {
            None
        }
    } else {
        None
    }
}

/// The action of a jump to the last word (`to_end`) or the first word of the cursor's
/// line: the new cursor, or nothing when it did not move or the line is not known.
pub open spec fn line_jump_action(c: CacheView, cursor: WordCursor, to_end: bool) -> KeyAction {
    match cursor_line(c, cursor) {
        Some(line) => {
            let target = WordCursor {
                page_index: cursor.page_index,
                word_index: if to_end {
                    (line.word_end - 1) as usize
                } else {
                    line.word_start
                },
            };
            if target != cursor {
                KeyAction::CursorMoved { cursor: target }
            } else {
                KeyAction::Empty
            }
        },
        None => KeyAction::Empty,
    }
}

/// In a well-formed cache, a word of a cached page lies on a known line, which holds it.
pub proof fn lemma_cursor_on_its_line(c: CacheView, cursor: WordCursor)
    requires
        cache_wf(c),
        c.pages.contains_key(cursor.page_index),
        cursor.word_index < c.pages[cursor.page_index].words.len(),
    ensures
        cursor_line(c, cursor) matches Some(line) && line.word_start <= cursor.word_index
            < line.word_end,
{
    let m = c.pages[cursor.page_index];
    assert(m.wf());
    let k = cursor.word_index as int;
    lemma_word_in_some_line(m, k);
    let l = choose|l: int|
        #![trigger m.lines@[l]]
        0 <= l < m.lines@.len() && m.lines@[l].word_start <= k < m.lines@[l].word_end;
    assert(m.lines@[l].word_start <= k < m.lines@[l].word_end);
    assert(views(m.words@)[k] == m.words@[k]@);
    assert(views(m.words@)[k].line_index == l);
}

/// The line of the cursor, read from the cache.
fn line_of_cursor(cache: &TextMapCache, cursor: WordCursor) -> (r: Option<LineInfo>)
    requires
        cache.wf(),
    ensures
        r == cursor_line(cache@, cursor),
        r matches Some(line) ==> line.word_start <= cursor.word_index < line.word_end,
{
    match cache.get(cursor.page_index) {
        Some(m) => {
            if cursor.word_index >= m.words.len() {
                return None;
            }
            let l = m.words[cursor.word_index].line_index;
            if l >= m.lines.len() {
                return None;
            }
            proof {
                lemma_cursor_on_its_line(cache@, cursor);
            }
            Some(m.lines[l])
        },
        None => None,
    }
}

/// Jumps to the last word (`to_end`) or the first word of the cursor's line.
fn line_jump(cache: &TextMapCache, cursor: WordCursor, to_end: bool) -> (r: KeyAction)
    requires
        cache.wf(),
    ensures
        r == line_jump_action(cache@, cursor, to_end),
{
    match line_of_cursor(cache, cursor) {
        Some(line) => {
            let word_index = if to_end {
                line.word_end - 1
            } else {
                line.word_start
            };
            let target = WordCursor::new(cursor.page_index, word_index);
            if target != cursor {
                KeyAction::CursorMoved { cursor: target }
            } else {
                KeyAction::Empty
            }
        },
        None => KeyAction::Empty,
    }
}

/// What a key means in Visual mode, with the cursor `cursor` and the text maps `c`, and
/// the handler afterwards.
pub open spec fn visual_key_spec(
    h: KeyHandlerView,
    keyval: u32,
    unicode: Option<char>,
    m: AppMode,
    c: CacheView,
) -> (KeyResult, KeyHandlerView) {
    match m {
        AppMode::Normal => (KeyResult::Unhandled, h),
        AppMode::Visual { cursor, selection_anchor } => {
            let has_selection = selection_anchor is Some;
            let count: nat = match h.pending_count {
                Some(n) => n as nat,
                None => 1,
            };
            if h.input_state is PendingFForward {
                match unicode {
                    Some(letter) => (KeyResult::Action(KeyAction::FindForward { letter }), h),
                    None => (KeyResult::Action(KeyAction::Empty), ready()),
                }
            } else if h.input_state is PendingFBackward {
                match unicode {
                    Some(letter) => (KeyResult::Action(KeyAction::FindBackward { letter }), h),
                    None => (KeyResult::Action(KeyAction::Empty), ready()),
                }
            } else if h.input_state is PendingElementForward {
                if keyval == KEY_A {
                    (KeyResult::Action(KeyAction::SearchAnnotationForward), h)
                } else {
                    (KeyResult::Action(KeyAction::Empty), ready())
                }
            } else if h.input_state is PendingElementBackward {
                if keyval == KEY_A {
                    (KeyResult::Action(KeyAction::SearchAnnotationBackward), h)
                } else {
                    (KeyResult::Action(KeyAction::Empty), ready())
                }
            } else if keyval == KEY_DOLLAR {
                (KeyResult::Action(line_jump_action(c, cursor, true)), ready())
            } else if starts_line_key(h, keyval) {
                (KeyResult::Action(line_jump_action(c, cursor, false)), ready())
            } else if keyval == KEY_H || keyval == KEY_LEFT {
                (KeyResult::Action(move_action(c, cursor, NavDirection::Left, count)), ready())
            } else if keyval == KEY_L || keyval == KEY_RIGHT {
                (KeyResult::Action(move_action(c, cursor, NavDirection::Right, count)), ready())
            } else if keyval == KEY_K || keyval == KEY_UP {
                (KeyResult::Action(move_action(c, cursor, NavDirection::Up, count)), ready())
            } else if keyval == KEY_J || keyval == KEY_DOWN {
                (KeyResult::Action(move_action(c, cursor, NavDirection::Down, count)), ready())
            } else if keyval == KEY_V {
                (KeyResult::Action(KeyAction::ExitVisual), ready())
            } else if keyval == KEY_ESCAPE {
                if has_selection {
                    (KeyResult::Action(KeyAction::ClearSelection), ready())
                } else {
                    (KeyResult::Action(KeyAction::ExitVisual), ready())
                }
            } else if keyval == KEY_S {
                (KeyResult::Action(KeyAction::ToggleSelection), ready())
            } else if keyval == KEY_D {
                if !has_selection {
                    (KeyResult::Action(KeyAction::ShowDefinition { cursor }), ready())
                } else {
                    (KeyResult::Action(KeyAction::Empty), ready())
                }
            } else if keyval == KEY_F {
                (KeyResult::StateChanged, with_state(h, InputState::PendingFForward))
            } else if keyval == KEY_UPPER_F {
                (KeyResult::StateChanged, with_state(h, InputState::PendingFBackward))
            } else if keyval == KEY_BRACKET_RIGHT {
                (KeyResult::StateChanged, with_state(h, InputState::PendingElementForward))
            } else if keyval == KEY_BRACKET_LEFT {
                (KeyResult::StateChanged, with_state(h, InputState::PendingElementBackward))
            } else if keyval == KEY_Y {
                match spec_selection_range(m) {
                    Some((start, end)) => (
                        KeyResult::Action(KeyAction::CopyToClipboard { start, end }),
                        ready(),
                    ),
                    None => (
                        KeyResult::Action(KeyAction::CopyToClipboard { start: cursor, end: cursor }),
                        ready(),
                    ),
                }
            } else if keyval == KEY_A {
                (
                    KeyResult::Action(
                        KeyAction::Annotate { cursor, selection: spec_selection_range(m) },
                    ),
                    ready(),
                )
            } else if keyval == KEY_PLUS || keyval == KEY_EQUAL {
                (KeyResult::Action(KeyAction::ZoomIn), ready())
            } else if keyval == KEY_MINUS {
                (KeyResult::Action(KeyAction::ZoomOut), ready())
            } else {
                (KeyResult::Unhandled, h)
            }
        },
    }
}

/// In Visual mode with nothing pending, `0` passes the keys handled first untouched, and
/// then `0` goes to the first word and `$` to the last word of the cursor's line (nothing
/// happens when the cursor is already there); the handler is left with nothing pending.
pub proof fn lemma_line_keys(
    c: CacheView,
    cursor: WordCursor,
    anchor: Option<WordCursor>,
    unicode: Option<char>,
)
    requires
        cache_wf(c),
        c.pages.contains_key(cursor.page_index),
        cursor.word_index < c.pages[cursor.page_index].words.len(),
    ensures
        pre_global_spec(ready(), KEY_0, 0) == (KeyResult::Unhandled, ready()),
        ({
            let m = AppMode::Visual { cursor, selection_anchor: anchor };
            let line = cursor_line(c, cursor)->0;
            let first = WordCursor { page_index: cursor.page_index, word_index: line.word_start };
            let last = WordCursor {
                page_index: cursor.page_index,
                word_index: (line.word_end - 1) as usize,
            };
            &&& cursor_line(c, cursor) is Some
            &&& line.word_start <= cursor.word_index < line.word_end
            &&& visual_key_spec(ready(), KEY_0, unicode, m, c) == (
                KeyResult::Action(
                    if first != cursor {
                        KeyAction::CursorMoved { cursor: first }
                    } else {
                        KeyAction::Empty
                    },
                ),
                ready(),
            )
            &&& visual_key_spec(ready(), KEY_DOLLAR, unicode, m, c) == (
                KeyResult::Action(
                    if last != cursor {
                        KeyAction::CursorMoved { cursor: last }
                    } else {
                        KeyAction::Empty
                    },
                ),
                ready(),
            )
        }),
{
    lemma_no_control();
    lemma_cursor_on_its_line(c, cursor);
}

/// In Visual mode with nothing pending, `k`/Up moves the cursor to the line above and
/// `j`/Down to the line below, onto a word of that line nearest horizontally to the
/// cursor's word, and the handler is left with nothing pending. `k` always moves from any
/// line but the first and `j` from any line but the last; from the first (last) line they
/// go to the last (first) line of the page before (after), and otherwise nothing happens.
pub proof fn lemma_visual_vertical_moves(
    c: CacheView,
    cursor: WordCursor,
    anchor: Option<WordCursor>,
    unicode: Option<char>,
    keyval: u32,
)
    requires
        cache_wf(c),
        c.pages.contains_key(cursor.page_index),
        cursor.word_index < c.pages[cursor.page_index].words.len(),
        keyval == KEY_K || keyval == KEY_UP || keyval == KEY_J || keyval == KEY_DOWN,
    ensures
        ({
            let p = cursor.page_index;
            let m = c.pages[p];
            let l = m.words@[cursor.word_index as int].line_index;
            let x = m.words@[cursor.word_index as int].center_x;
            let up = keyval == KEY_K || keyval == KEY_UP;
            let (res, after) = visual_key_spec(
                ready(),
                keyval,
                unicode,
                AppMode::Visual { cursor, selection_anchor: anchor },
                c,
            );
            &&& after == ready()
            &&& res == KeyResult::Action(KeyAction::Empty) || (res matches KeyResult::Action(
                KeyAction::CursorMoved { .. },
            ))
            &&& up && l > 0 ==> (res matches KeyResult::Action(KeyAction::CursorMoved { .. }))
            &&& !up && l + 1 < m.lines.len() ==> (res matches KeyResult::Action(
                KeyAction::CursorMoved { .. },
            ))
            &&& res matches KeyResult::Action(KeyAction::CursorMoved { cursor: n }) ==> {
                let nl = c.pages[n.page_index].words@[n.word_index as int].line_index;
                &&& c.pages.contains_key(n.page_index)
                &&& n.word_index < c.pages[n.page_index].words.len()
                &&& nearest_on_its_line(c.pages[n.page_index], n.word_index as int, x)
                &&& up ==> (n.page_index == p && nl + 1 == l && n.word_index < cursor.word_index)
                    || (l == 0 && n.page_index + 1 == p && nl + 1
                    == c.pages[n.page_index].lines.len())
                &&& !up ==> (n.page_index == p && nl == l + 1 && n.word_index > cursor.word_index)
                    || (l + 1 == m.lines.len() && n.page_index == p + 1 && nl == 0)
            }
        }),
{
    let p = cursor.page_index;
    let w = cursor.word_index;
    let up = keyval == KEY_K || keyval == KEY_UP;
    let dir = if up { NavDirection::Up } else { NavDirection::Down };
    lemma_up_moves_to_line_above(c, p, w);
    lemma_down_moves_to_line_below(c, p, w);
    match nav_spec(c, p, w, dir) {
        Some(r) => {
            let n = WordCursor { page_index: r.page_index, word_index: r.word_index };
            assert(nav_repeat(c, n, dir, 0) == n);
            assert(nav_repeat(c, cursor, dir, 1) == n);
            assert(n != cursor);
        },
        None => {
            assert(nav_repeat(c, cursor, dir, 1) == cursor);
        },
    }
}

/// Processes a key in Visual mode. `unicode` is the character the key types, if any (read
/// after `f`/`F`). `h`/`j`/`k`/`l` move the cursor (by the typed count), `0` and `$` go to
/// the first and the last word of the cursor's line, `v` leaves Visual
/// mode, Escape clears the selection or leaves, `s` toggles the selection anchor, `d` shows
/// the definition, `f`/`F` + letter find a word on the line, `]a`/`[a` go to the next or
/// previous annotation, `y` copies, `a` annotates, `+`/`-` zoom. A finished command clears
/// the pending input; find and annotation searches leave the count for the executor.
pub fn handle_visual_mode_key(
    handler: &mut KeyHandler,
    keyval: u32,
    unicode: Option<char>,
    mode: &AppMode,
    cache: &TextMapCache,
) -> (r: KeyResult)
    requires
        cache.wf(),
    ensures
        (r, final(handler)@) == visual_key_spec(old(handler)@, keyval, unicode, *mode, cache@),
{
    let (cursor, has_selection) = match mode {
        AppMode::Visual { cursor, selection_anchor } => (*cursor, selection_anchor.is_some()),
        AppMode::Normal => {
            return KeyResult::Unhandled;
        },
    };
    let input_state = handler.input_state();
    if input_state == InputState::PendingFForward {
        if let Some(letter) = unicode {
            return KeyResult::Action(KeyAction::FindForward { letter });
        }
        handler.reset();
        return KeyResult::Action(KeyAction::Empty);
    }
    if input_state == InputState::PendingFBackward {
        if let Some(letter) = unicode {
            return KeyResult::Action(KeyAction::FindBackward { letter });
        }
        handler.reset();
        return KeyResult::Action(KeyAction::Empty);
    }
    if input_state == InputState::PendingElementForward {
        if keyval == KEY_A {
            return KeyResult::Action(KeyAction::SearchAnnotationForward);
        }
        handler.reset();
        return KeyResult::Action(KeyAction::Empty);
    }
    if input_state == InputState::PendingElementBackward {
        if keyval == KEY_A {
            return KeyResult::Action(KeyAction::SearchAnnotationBackward);
        }
        handler.reset();
        return KeyResult::Action(KeyAction::Empty);
    }
    let count = handler.count();
    let result = if keyval == KEY_DOLLAR {
        KeyResult::Action(line_jump(cache, cursor, true))
    } else if keyval == KEY_0 && handler.pending_count().is_none() {
        KeyResult::Action(line_jump(cache, cursor, false))
    } else if keyval == KEY_H || keyval == KEY_LEFT {
        match navigate_with_count(cache, cursor, NavDirection::Left, count) {
            Some(new_cursor) => KeyResult::Action(KeyAction::CursorMoved { cursor: new_cursor }),
            None => KeyResult::Action(KeyAction::Empty),
        }
    } else if keyval == KEY_L || keyval == KEY_RIGHT {
        match navigate_with_count(cache, cursor, NavDirection::Right, count) {
            Some(new_cursor) => KeyResult::Action(KeyAction::CursorMoved { cursor: new_cursor }),
            None => KeyResult::Action(KeyAction::Empty),
        }
    } else if keyval == KEY_K || keyval == KEY_UP {
        match navigate_with_count(cache, cursor, NavDirection::Up, count) {
            Some(new_cursor) => KeyResult::Action(KeyAction::CursorMoved { cursor: new_cursor }),
            None => KeyResult::Action(KeyAction::Empty),
        }
    } else if keyval == KEY_J || keyval == KEY_DOWN {
        match navigate_with_count(cache, cursor, NavDirection::Down, count) {
            Some(new_cursor) => KeyResult::Action(KeyAction::CursorMoved { cursor: new_cursor }),
            None => KeyResult::Action(KeyAction::Empty),
        }
    } else if keyval == KEY_V {
        KeyResult::Action(KeyAction::ExitVisual)
    } else if keyval == KEY_ESCAPE {
        if has_selection {
            KeyResult::Action(KeyAction::ClearSelection)
        } else {
            KeyResult::Action(KeyAction::ExitVisual)
        }
    } else if keyval == KEY_S {
        KeyResult::Action(KeyAction::ToggleSelection)
    } else if keyval == KEY_D {
        if !has_selection {
            KeyResult::Action(KeyAction::ShowDefinition { cursor })
        } else {
            KeyResult::Action(KeyAction::Empty)
        }
    } else if keyval == KEY_F {
        handler.set_input_state(InputState::PendingFForward);
        KeyResult::StateChanged
    } else if keyval == KEY_UPPER_F {
        handler.set_input_state(InputState::PendingFBackward);
        KeyResult::StateChanged
    } else if keyval == KEY_BRACKET_RIGHT {
        handler.set_input_state(InputState::PendingElementForward);
        KeyResult::StateChanged
    } else if keyval == KEY_BRACKET_LEFT {
        handler.set_input_state(InputState::PendingElementBackward);
        KeyResult::StateChanged
    } else if keyval == KEY_Y {
        match mode.selection_range() {
            Some((start, end)) => KeyResult::Action(KeyAction::CopyToClipboard { start, end }),
            None => KeyResult::Action(KeyAction::CopyToClipboard { start: cursor, end: cursor }),
        }
    } else if keyval == KEY_A {
        KeyResult::Action(KeyAction::Annotate { cursor, selection: mode.selection_range() })
    } else if keyval == KEY_PLUS || keyval == KEY_EQUAL {
        KeyResult::Action(KeyAction::ZoomIn)
    } else if keyval == KEY_MINUS {
        KeyResult::Action(KeyAction::ZoomOut)
    } else {
        KeyResult::Unhandled
    };
    if let KeyResult::Action(_) = &result {
        handler.reset();
    }
    result
}

} // verus!
