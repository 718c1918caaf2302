use eyers::modes::app_mode::{AppMode, WordCursor};
use eyers::modes::key_action::KeyAction;
use eyers::services::annotations::Annotation;
use eyers::text_map::page_text_map::{CharData, PageTextMap};
use eyers::text_map::text_map_cache::TextMapCache;
use eyers::text_map::word_info::Bounds;
use eyers::widgets::eyers_window::{
    annotate_draft, annotation_highlights, annotation_save, apply_action_to_mode,
    copy_feedback_text, draft_from_annotation, export_file_name, export_pdf_name,
    export_prompt, find_repeated, first_word_of_page,
    handle_drag_ended, handle_drag_motion, handle_drag_started, highlight_plan,
    last_word_of_page, search_annotations, toggle_toc_panel, word_at_char, AnnotationSave,
    DragEffect, MouseSelectionState,
};
use eyers::widgets::toc_panel::TocMode;

fn map(page_index: usize, text: &str) -> PageTextMap {
    let chars: Vec<CharData> = text
        .chars()
        .enumerate()
        .map(|(i, ch)| {
            let left = 5000 * i as i32;
            CharData { ch, index: i, bounds: Bounds { bottom: 700000, left, top: 710000, right: left + 5000 } }
        })
        .collect();
    PageTextMap::build_from_page(&chars, page_index, 612000, 792000)
}

fn cache() -> TextMapCache {
    let mut c = TextMapCache::new(2);
    c.insert(map(0, "alpha beta gamma delta"));
    c.insert(map(1, "epsilon zeta"));
    c
}

fn ann(id: i64, sp: usize, sw: usize, ep: usize, ew: usize, note: &str) -> Annotation {
    Annotation {
        id,
        pdf_path: "doc.pdf".to_string(),
        start_page: sp,
        start_word: sw,
        end_page: ep,
        end_word: ew,
        selected_text: "text".to_string(),
        note: note.to_string(),
        created_at: 1,
        updated_at: 2,
    }
}

#[test]
fn actions_change_the_mode() {
    let c = WordCursor::new(0, 2);
    let mut mode = AppMode::Normal;
    assert!(!apply_action_to_mode(&mut mode, KeyAction::EnterVisual, None));
    assert_eq!(mode, AppMode::Normal);
    assert!(apply_action_to_mode(&mut mode, KeyAction::EnterVisual, Some(c)));
    assert_eq!(mode, AppMode::Visual { cursor: c, selection_anchor: None });
    apply_action_to_mode(&mut mode, KeyAction::ToggleSelection, None);
    apply_action_to_mode(&mut mode, KeyAction::CursorMoved { cursor: WordCursor::new(0, 0) }, None);
    assert_eq!(mode.selection_range(), Some((WordCursor::new(0, 0), c)));
    assert!(apply_action_to_mode(&mut mode, KeyAction::ClearSelection, None));
    assert!(mode.has_selection());
    assert!(apply_action_to_mode(&mut mode, KeyAction::ExitVisual, None));
    assert_eq!(mode, AppMode::Normal);
    assert!(apply_action_to_mode(&mut mode, KeyAction::ZoomIn, None));
}

#[test]
fn highlights_of_cursor_and_selection() {
    let c = cache();
    let plan = highlight_plan(&c, Some(WordCursor::new(1, 5)), None);
    assert_eq!(plan.cursor, None);
    assert!(plan.selection.is_empty());
    let plan = highlight_plan(
        &c,
        Some(WordCursor::new(0, 1)),
        Some((WordCursor::new(1, 0), WordCursor::new(0, 3))),
    );
    assert_eq!(plan.cursor, Some(WordCursor::new(0, 1)));
    assert_eq!(plan.selection, vec![WordCursor::new(0, 3), WordCursor::new(1, 0)]);
}

#[test]
fn annotation_highlights_follow_stored_ranges() {
    let c = cache();
    let anns = vec![ann(1, 0, 2, 1, 0, ""), ann(2, 0, 3, 0, 1, "")];
    let h = annotation_highlights(&c, &anns);
    assert_eq!(h[0], vec![WordCursor::new(0, 2), WordCursor::new(0, 3), WordCursor::new(1, 0)]);
    assert!(h[1].is_empty());
}

#[test]
fn drafts_for_new_and_existing_annotations() {
    let c = cache();
    let anns = vec![ann(7, 0, 1, 0, 2, "old note")];
    let d = annotate_draft(anns, &c, WordCursor::new(0, 2), None);
    assert_eq!((d.start, d.end), (WordCursor::new(0, 2), WordCursor::new(0, 2)));
    assert_eq!(d.selected_text, "gamma");
    assert_eq!(d.annotation_id, Some(7));
    assert_eq!(d.note, "old note");
    let anns = vec![ann(7, 0, 1, 0, 2, "old note")];
    let sel = Some((WordCursor::new(0, 3), WordCursor::new(1, 1)));
    let d = annotate_draft(anns, &c, WordCursor::new(1, 1), sel);
    assert_eq!(d.selected_text, "deltaepsilonzeta");
    assert_eq!(d.annotation_id, None);
    assert_eq!(d.note, "");
    let d = draft_from_annotation(ann(3, 1, 0, 1, 1, "n"));
    assert_eq!((d.start, d.end, d.annotation_id), (WordCursor::new(1, 0), WordCursor::new(1, 1), Some(3)));
}

#[test]
fn saving_creates_or_updates() {
    let range = (WordCursor::new(0, 0), WordCursor::new(0, 1));
    assert!(annotation_save(None, Some(range), None, "t".to_string(), "n").is_none());
    assert!(annotation_save(Some("a.pdf".to_string()), None, None, "t".to_string(), "n").is_none());
    match annotation_save(Some("a.pdf".to_string()), Some(range), None, "t".to_string(), "n") {
        Some(AnnotationSave::Create { pdf_path, start, end, selected_text, note }) => {
            assert_eq!((pdf_path.as_str(), start, end), ("a.pdf", range.0, range.1));
            assert_eq!((selected_text.as_str(), note.as_str()), ("t", "n"));
        }
        _ => panic!("expected a new annotation"),
    }
    match annotation_save(Some("a.pdf".to_string()), Some(range), Some(4), "t".to_string(), "n") {
        Some(AnnotationSave::Update { id, .. }) => assert_eq!(id, 4),
        _ => panic!("expected an update"),
    }
}

#[test]
fn toc_panel_toggles_through_its_lists() {
    assert_eq!(toggle_toc_panel(false, TocMode::Chapters), (true, TocMode::Chapters, true));
    assert_eq!(toggle_toc_panel(true, TocMode::Chapters), (true, TocMode::Annotations, false));
    assert_eq!(toggle_toc_panel(true, TocMode::Annotations), (false, TocMode::Chapters, false));
}

#[test]
fn first_and_last_words_and_word_at_char() {
    let m = map(3, "ab cd");
    assert_eq!(first_word_of_page(&m), Some(WordCursor::new(3, 0)));
    assert_eq!(last_word_of_page(&m), Some(WordCursor::new(3, 1)));
    assert_eq!(word_at_char(&m, 4), Some(1));
    assert_eq!(word_at_char(&m, 2), None);
    let empty = map(0, "");
    assert_eq!(first_word_of_page(&empty), None);
    assert_eq!(last_word_of_page(&empty), None);
}

#[test]
fn dragging_selects_between_words() {
    let mut state = MouseSelectionState::default();
    let mut mode = AppMode::Normal;
    let a = WordCursor::new(0, 3);
    let b = WordCursor::new(0, 1);
    assert_eq!(handle_drag_started(&mut state, &mut mode, true, Some(a), 0), DragEffect::Unchanged);
    assert_eq!(handle_drag_started(&mut state, &mut mode, false, Some(a), 0), DragEffect::CursorAt(a));
    assert!(state.is_dragging);
    assert_eq!(handle_drag_motion(&state, &mut mode, false, Some(a)), DragEffect::Unchanged);
    assert_eq!(handle_drag_motion(&state, &mut mode, false, Some(b)), DragEffect::CursorAt(a));
    assert_eq!(mode.selection_range(), Some((b, a)));
    assert_eq!(handle_drag_ended(&mut state, &mut mode, false), DragEffect::Unchanged);
    assert!(!state.is_dragging);
    assert!(mode.has_selection());
}

#[test]
fn a_click_without_drag_goes_back_to_normal() {
    let mut state = MouseSelectionState::default();
    let mut mode = AppMode::Normal;
    handle_drag_started(&mut state, &mut mode, false, Some(WordCursor::new(0, 0)), 0);
    assert_eq!(handle_drag_ended(&mut state, &mut mode, false), DragEffect::BackToNormal);
    assert_eq!(mode, AppMode::Normal);
    assert_eq!(handle_drag_started(&mut state, &mut mode, false, None, 0), DragEffect::BackToNormal);
    assert_eq!(handle_drag_ended(&mut state, &mut mode, false), DragEffect::Unchanged);
}

#[test]
fn repeated_annotation_search() {
    let anns = vec![ann(1, 0, 2, 0, 3, ""), ann(2, 1, 0, 1, 1, ""), ann(3, 2, 5, 2, 6, "")];
    let start = WordCursor::new(0, 0);
    assert_eq!(search_annotations(&anns, start, true, 1), WordCursor::new(0, 2));
    assert_eq!(search_annotations(&anns, start, true, 2), WordCursor::new(1, 0));
    assert_eq!(search_annotations(&anns, start, true, 9), WordCursor::new(2, 5));
    assert_eq!(search_annotations(&anns, WordCursor::new(2, 9), false, 1), WordCursor::new(2, 5));
    assert_eq!(search_annotations(&anns, WordCursor::new(2, 9), false, 2), WordCursor::new(1, 0));
    assert_eq!(search_annotations(&anns, start, false, 3), start);
}

#[test]
fn repeated_find_on_a_line() {
    let c = cache();
    let start = WordCursor::new(0, 0);
    assert_eq!(find_repeated(&c, start, 'G', true, 1), WordCursor::new(0, 2));
    assert_eq!(find_repeated(&c, WordCursor::new(0, 3), 'a', false, 2), WordCursor::new(0, 0));
    assert_eq!(find_repeated(&c, start, 'z', true, 3), start);
}

#[test]
fn copy_feedback_shortens_long_text() {
    assert_eq!(copy_feedback_text("short"), "Copied: \"short\"");
    let long = "a".repeat(45);
    assert_eq!(copy_feedback_text(&long), format!("Copied: \"{}...\"", "a".repeat(37)));
    let forty = "b".repeat(40);
    assert_eq!(copy_feedback_text(&forty), format!("Copied: \"{}\"", forty));
}

#[test]
fn export_texts() {
    assert_eq!(export_file_name(Some("thesis")), "thesis_annotations.md");
    assert_eq!(export_file_name(None), "annotations_annotations.md");
    assert_eq!(export_pdf_name(Some("thesis.pdf")), "thesis.pdf");
    assert_eq!(export_pdf_name(None), "Unknown PDF");
    assert_eq!(export_prompt(3), "Export 3 annotation(s) to a Markdown file?");
}
