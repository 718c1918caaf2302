use eyers::modes::app_mode::{AppMode, WordCursor};
use eyers::modes::input_state::InputState;
use eyers::modes::key_action::{KeyAction, KeyResult, ScrollDir};
use eyers::modes::key_handler::KeyHandler;
use eyers::modes::keys::{
    CONTROL_MASK, KEY_0, KEY_A, KEY_BRACKET_RIGHT, KEY_D, KEY_DOLLAR, KEY_E, KEY_ESCAPE, KEY_F, KEY_G,
    KEY_J, KEY_KP_0, KEY_L, KEY_O, KEY_RETURN, KEY_S, KEY_TAB, KEY_U, KEY_UPPER_G, KEY_V, KEY_Y,
};
use eyers::modes::processing::{
    get_number_from_key, handle_normal_mode_key, handle_post_global_key, handle_pre_global_key,
    handle_toc_key, handle_visual_mode_key, navigate_with_count,
};
use eyers::text_map::navigation::NavDirection;
use eyers::text_map::page_text_map::{CharData, PageTextMap};
use eyers::text_map::text_map_cache::TextMapCache;
use eyers::text_map::word_info::Bounds;
use eyers::widgets::toc_panel::TocMode;

fn press(h: &mut KeyHandler, keys: &[u32]) -> KeyResult {
    let mut last = KeyResult::Unhandled;
    for k in keys {
        last = handle_pre_global_key(h, *k, 0);
    }
    last
}

fn cache() -> TextMapCache {
    let mut chars = Vec::new();
    let mut index = 0usize;
    for (line, bottom) in [("one two three", 700000), ("four five", 680000)] {
        if index > 0 {
            chars.push(CharData { ch: '\n', index, bounds: Bounds { bottom, left: 0, top: bottom, right: 0 } });
            index += 1;
        }
        for (i, ch) in line.chars().enumerate() {
            let left = 5000 * i as i32;
            chars.push(CharData {
                ch,
                index,
                bounds: Bounds { bottom, left, top: bottom + 10000, right: left + 5000 },
            });
            index += 1;
        }
    }
    let mut c = TextMapCache::new(1);
    c.insert(PageTextMap::build_from_page(&chars, 0, 612000, 792000));
    c
}

#[test]
fn digits_are_read_from_both_keyboards() {
    assert_eq!(get_number_from_key(KEY_0 + 7), Some(7));
    assert_eq!(get_number_from_key(KEY_KP_0 + 3), Some(3));
    assert_eq!(get_number_from_key(KEY_G), None);
}

#[test]
fn count_then_upper_g_goes_to_page() {
    let mut h = KeyHandler::new();
    let r = press(&mut h, &[KEY_0 + 4, KEY_0 + 2]);
    assert_eq!(r, KeyResult::StateChanged);
    assert_eq!(h.status_text(), "42");
    let r = press(&mut h, &[KEY_UPPER_G]);
    assert_eq!(r, KeyResult::Action(KeyAction::ScrollToPage { page: 42 }));
    assert!(!h.has_pending_state());
}

#[test]
fn upper_g_alone_goes_to_end() {
    let mut h = KeyHandler::new();
    assert_eq!(press(&mut h, &[KEY_UPPER_G]), KeyResult::Action(KeyAction::ScrollToEnd));
}

#[test]
fn gg_goes_to_start_and_count_gg_to_page() {
    let mut h = KeyHandler::new();
    assert_eq!(press(&mut h, &[KEY_G]), KeyResult::StateChanged);
    assert_eq!(h.status_text(), "g");
    assert_eq!(h.input_state(), InputState::PendingG);
    assert_eq!(press(&mut h, &[KEY_G]), KeyResult::Action(KeyAction::ScrollToStart));
    let r = press(&mut h, &[KEY_0 + 4, KEY_0 + 2, KEY_G]);
    assert_eq!(h.status_text(), "42g");
    assert_eq!(r, KeyResult::StateChanged);
    assert_eq!(press(&mut h, &[KEY_G]), KeyResult::Action(KeyAction::ScrollToPage { page: 42 }));
}

#[test]
fn another_key_cancels_pending_g() {
    let mut h = KeyHandler::new();
    press(&mut h, &[KEY_0 + 3, KEY_G]);
    assert_eq!(press(&mut h, &[KEY_J]), KeyResult::Action(KeyAction::Empty));
    assert!(!h.has_pending_state());
}

#[test]
fn escape_and_tab() {
    let mut h = KeyHandler::new();
    press(&mut h, &[KEY_0 + 9]);
    assert_eq!(press(&mut h, &[KEY_ESCAPE]), KeyResult::Action(KeyAction::Empty));
    assert_eq!(h.pending_count(), None);
    assert_eq!(press(&mut h, &[KEY_TAB]), KeyResult::Action(KeyAction::ToggleTOC));
    assert_eq!(press(&mut h, &[KEY_J]), KeyResult::Unhandled);
}

#[test]
fn control_scrolls_half_pages() {
    let mut h = KeyHandler::new();
    assert_eq!(
        handle_pre_global_key(&mut h, KEY_D, CONTROL_MASK),
        KeyResult::Action(KeyAction::ScrollHalfPage(ScrollDir::Down))
    );
    assert_eq!(
        handle_pre_global_key(&mut h, KEY_U, CONTROL_MASK),
        KeyResult::Action(KeyAction::ScrollHalfPage(ScrollDir::Up))
    );
    assert_eq!(handle_pre_global_key(&mut h, KEY_J, CONTROL_MASK), KeyResult::Unhandled);
}

#[test]
fn count_too_large_is_kept() {
    let mut h = KeyHandler::new();
    for d in [4, 2, 9, 4, 9, 6, 7, 2, 9, 5] {
        press(&mut h, &[KEY_0 + d]);
    }
    assert_eq!(h.pending_count(), Some(4294967295));
    press(&mut h, &[KEY_0 + 1]);
    assert_eq!(h.pending_count(), Some(4294967295));
    assert_eq!(h.count(), 4294967295);
}

#[test]
fn normal_mode_keys() {
    let mut h = KeyHandler::new();
    assert_eq!(
        handle_normal_mode_key(&mut h, KEY_J),
        KeyResult::Action(KeyAction::ScrollViewport { x_percent: 0, y_percent: 10 })
    );
    assert_eq!(handle_normal_mode_key(&mut h, KEY_V), KeyResult::Action(KeyAction::EnterVisual));
    assert_eq!(handle_normal_mode_key(&mut h, KEY_S), KeyResult::Unhandled);
    assert_eq!(handle_post_global_key(&mut h, KEY_O), KeyResult::Action(KeyAction::OpenFile));
    assert_eq!(handle_post_global_key(&mut h, KEY_E), KeyResult::Action(KeyAction::ExportAnnotations));
    assert_eq!(handle_post_global_key(&mut h, KEY_J), KeyResult::Unhandled);
}

#[test]
fn toc_keys() {
    let mut h = KeyHandler::new();
    assert_eq!(handle_toc_key(&mut h, KEY_J, TocMode::Chapters), KeyResult::Action(KeyAction::ScrollTOC(ScrollDir::Down)));
    assert_eq!(handle_toc_key(&mut h, KEY_G, TocMode::Chapters), KeyResult::StateChanged);
    assert_eq!(handle_toc_key(&mut h, KEY_G, TocMode::Chapters), KeyResult::Action(KeyAction::ScrollTocToStart));
    assert_eq!(handle_toc_key(&mut h, KEY_UPPER_G, TocMode::Chapters), KeyResult::Action(KeyAction::ScrollTocToEnd));
    assert_eq!(handle_toc_key(&mut h, KEY_RETURN, TocMode::Chapters), KeyResult::Action(KeyAction::SelectTocRow));
    assert_eq!(handle_toc_key(&mut h, KEY_A, TocMode::Chapters), KeyResult::Unhandled);
    assert_eq!(handle_toc_key(&mut h, KEY_A, TocMode::Annotations), KeyResult::Action(KeyAction::EditTocAnnotation));
    assert_eq!(handle_toc_key(&mut h, KEY_D, TocMode::Annotations), KeyResult::Action(KeyAction::DeleteTocAnnotation));
}

#[test]
fn visual_mode_moves_with_counts() {
    let c = cache();
    let mut h = KeyHandler::new();
    let mode = AppMode::Visual { cursor: WordCursor::new(0, 0), selection_anchor: None };
    press(&mut h, &[KEY_0 + 2]);
    let r = handle_visual_mode_key(&mut h, KEY_L, None, &mode, &c);
    assert_eq!(r, KeyResult::Action(KeyAction::CursorMoved { cursor: WordCursor::new(0, 2) }));
    assert!(!h.has_pending_state());
    let r = handle_visual_mode_key(&mut h, KEY_J, None, &mode, &c);
    assert_eq!(r, KeyResult::Action(KeyAction::CursorMoved { cursor: WordCursor::new(0, 3) }));
    assert_eq!(navigate_with_count(&c, WordCursor::new(0, 4), NavDirection::Right, 3), None);
    assert_eq!(
        navigate_with_count(&c, WordCursor::new(0, 0), NavDirection::Right, 10),
        Some(WordCursor::new(0, 4))
    );
}

#[test]
fn visual_mode_commands() {
    let c = cache();
    let mut h = KeyHandler::new();
    let cur = WordCursor::new(0, 1);
    let plain = AppMode::Visual { cursor: cur, selection_anchor: None };
    let selecting = AppMode::Visual { cursor: cur, selection_anchor: Some(WordCursor::new(0, 3)) };
    assert_eq!(handle_visual_mode_key(&mut h, KEY_ESCAPE, None, &plain, &c), KeyResult::Action(KeyAction::ExitVisual));
    assert_eq!(handle_visual_mode_key(&mut h, KEY_ESCAPE, None, &selecting, &c), KeyResult::Action(KeyAction::ClearSelection));
    assert_eq!(handle_visual_mode_key(&mut h, KEY_S, None, &plain, &c), KeyResult::Action(KeyAction::ToggleSelection));
    assert_eq!(
        handle_visual_mode_key(&mut h, KEY_Y, None, &selecting, &c),
        KeyResult::Action(KeyAction::CopyToClipboard { start: cur, end: WordCursor::new(0, 3) })
    );
    assert_eq!(
        handle_visual_mode_key(&mut h, KEY_Y, None, &plain, &c),
        KeyResult::Action(KeyAction::CopyToClipboard { start: cur, end: cur })
    );
    assert_eq!(handle_visual_mode_key(&mut h, KEY_D, None, &plain, &c), KeyResult::Action(KeyAction::ShowDefinition { cursor: cur }));
    assert_eq!(handle_visual_mode_key(&mut h, KEY_D, None, &selecting, &c), KeyResult::Action(KeyAction::Empty));
    assert_eq!(handle_visual_mode_key(&mut h, KEY_F, None, &plain, &c), KeyResult::StateChanged);
    assert_eq!(h.status_text(), "f");
    assert_eq!(
        handle_visual_mode_key(&mut h, KEY_0 + 0x40, Some('t'), &plain, &c),
        KeyResult::Action(KeyAction::FindForward { letter: 't' })
    );
    h.reset();
    assert_eq!(handle_visual_mode_key(&mut h, KEY_BRACKET_RIGHT, None, &plain, &c), KeyResult::StateChanged);
    assert_eq!(h.status_text(), "]");
    assert_eq!(handle_visual_mode_key(&mut h, KEY_A, None, &plain, &c), KeyResult::Action(KeyAction::SearchAnnotationForward));
    h.reset();
    assert_eq!(handle_visual_mode_key(&mut h, KEY_V, None, &AppMode::Normal, &c), KeyResult::Unhandled);
}

#[test]
fn visual_line_start_and_end() {
    let c = cache();
    let mut h = KeyHandler::new();
    let on = |w: usize| AppMode::Visual { cursor: WordCursor::new(0, w), selection_anchor: None };
    assert_eq!(press(&mut h, &[KEY_0]), KeyResult::Unhandled);
    assert_eq!(h.pending_count(), None);
    assert_eq!(
        handle_visual_mode_key(&mut h, KEY_0, None, &on(1), &c),
        KeyResult::Action(KeyAction::CursorMoved { cursor: WordCursor::new(0, 0) })
    );
    assert_eq!(
        handle_visual_mode_key(&mut h, KEY_DOLLAR, None, &on(1), &c),
        KeyResult::Action(KeyAction::CursorMoved { cursor: WordCursor::new(0, 2) })
    );
    assert_eq!(
        handle_visual_mode_key(&mut h, KEY_DOLLAR, None, &on(3), &c),
        KeyResult::Action(KeyAction::CursorMoved { cursor: WordCursor::new(0, 4) })
    );
    assert_eq!(
        handle_visual_mode_key(&mut h, KEY_0, None, &on(4), &c),
        KeyResult::Action(KeyAction::CursorMoved { cursor: WordCursor::new(0, 3) })
    );
    assert_eq!(handle_visual_mode_key(&mut h, KEY_DOLLAR, None, &on(2), &c), KeyResult::Action(KeyAction::Empty));
    press(&mut h, &[KEY_0 + 2]);
    assert_eq!(handle_visual_mode_key(&mut h, KEY_DOLLAR, None, &on(0), &c), KeyResult::Action(KeyAction::CursorMoved { cursor: WordCursor::new(0, 2) }));
    assert_eq!(h.input_state(), InputState::Ready);
    assert_eq!(h.pending_count(), None);
    press(&mut h, &[KEY_0 + 1, KEY_0]);
    assert_eq!(h.pending_count(), Some(10));
}

#[test]
fn normal_mode_zero_starts_a_count() {
    let mut h = KeyHandler::new();
    assert_eq!(press(&mut h, &[KEY_0]), KeyResult::Unhandled);
    assert_eq!(handle_normal_mode_key(&mut h, KEY_0), KeyResult::StateChanged);
    assert_eq!(h.pending_count(), Some(0));
    assert_eq!(press(&mut h, &[KEY_UPPER_G]), KeyResult::Action(KeyAction::ScrollToPage { page: 0 }));
    assert_eq!(h.pending_count(), None);
}
