use eyers::services::annotations::Annotation;
use eyers::services::bookmarks::BookmarkEntry;
use eyers::services::dictionary::Language;
use eyers::widgets::annotation_object::{compare_annotations, AnnotationObject};
use eyers::modes::keys::{CONTROL_MASK, KEY_ESCAPE, KEY_J, KEY_RETURN};
use eyers::widgets::annotation_panel::{annotation_panel_key, selected_text_display, PanelKey};
use eyers::widgets::definition_popover::definition_or_not_found;
use eyers::widgets::pdf_view::{
    current_page_from_visibility, find_word_boundaries, handle_translate_click,
    visible_page_range, SelectionPoint,
};
use eyers::widgets::settings_window::{language_from_selected, selected_for_language};
use eyers::widgets::toc_panel::{
    flatten_chapters_entries, get_selected_annotation_id, last_position,
    next_annotation_position, prev_annotation_position, remove_listbox_annotation,
    select_current_chapter, update_list_annotations, TocMode, INVALID_LIST_POSITION,
};
use eyers::widgets::translation_panel::error_markup;
use std::cmp::Ordering;

fn ann(id: i64, sp: usize, sw: usize) -> Annotation {
    Annotation {
        id,
        pdf_path: String::new(),
        start_page: sp,
        start_word: sw,
        end_page: sp,
        end_word: sw,
        selected_text: format!("t{}", id),
        note: format!("n{}", id),
        created_at: 0,
        updated_at: 0,
    }
}

#[test]
fn annotation_objects_compare_by_start() {
    let a = AnnotationObject::new(ann(1, 2, 3));
    let b = AnnotationObject::new(ann(2, 2, 9));
    let c = AnnotationObject::new(ann(1, 0, 0));
    assert_eq!(compare_annotations(&a, &b), Ordering::Less);
    assert_eq!(compare_annotations(&b, &a), Ordering::Greater);
    assert_eq!(compare_annotations(&a, &a), Ordering::Equal);
    assert_eq!(compare_annotations(&c, &a), Ordering::Less);
    assert!(a == c);
    assert!(a != b);
    assert_eq!((a.id(), a.start_page(), a.start_word()), (1, 2, 3));
    assert_eq!(a.selected_text(), "t1");
    assert_eq!(a.note(), "n1");
    assert_eq!(a.get_start_word_cursor().word_index, 3);
    assert_eq!(AnnotationObject::default().id(), 0);
}

#[test]
fn annotated_text_preview() {
    assert_eq!(selected_text_display("two\nlines"), "\"two lines\"");
    let long = "x".repeat(120);
    assert_eq!(selected_text_display(&long), format!("\"{}...\"", "x".repeat(100)));
    // Eighty two-byte characters are longer than a hundred bytes but shorter than a
    // hundred characters.
    let wide = "é".repeat(80);
    assert_eq!(selected_text_display(&wide), format!("\"{}...\"", wide));
}

#[test]
fn panel_messages() {
    assert_eq!(error_markup("bad <thing>"), "<span color='red'>bad &lt;thing&gt;</span>");
    assert_eq!(definition_or_not_found(Some("<b>x</b>".to_string()), "x"), "<b>x</b>");
    assert_eq!(definition_or_not_found(None, "xyz"), "Definition for <b>xyz</b> not found.");
}

#[test]
fn language_entries() {
    assert_eq!(language_from_selected(1), Language::Spanish);
    assert_eq!(language_from_selected(0), Language::English);
    assert_eq!(language_from_selected(7), Language::English);
    assert_eq!(selected_for_language(Language::Spanish), 1);
    for lang in [Language::English, Language::Spanish] {
        assert_eq!(language_from_selected(selected_for_language(lang)), lang);
    }
}

#[test]
fn page_ranges_from_visibility() {
    assert_eq!(visible_page_range(&Vec::new()), None);
    assert_eq!(visible_page_range(&vec![false, false, true, true, false, false]), Some((1, 4)));
    assert_eq!(visible_page_range(&vec![true, false]), Some((0, 1)));
    assert_eq!(visible_page_range(&vec![false, false, false]), Some((0, 1)));
    assert_eq!(current_page_from_visibility(&vec![false, true, true]), Some(1));
    assert_eq!(current_page_from_visibility(&vec![false, false, false]), Some(2));
    assert_eq!(current_page_from_visibility(&Vec::new()), None);
}

#[test]
fn word_boundaries() {
    let chars: Vec<char> = "say it's ok".chars().collect();
    assert_eq!(find_word_boundaries(&chars, 5), (4, 8));
    assert_eq!(find_word_boundaries(&chars, 3), (4, 3));
}

#[test]
fn translate_clicks_select_a_range() {
    let text = "  one, two three ";
    let mut start: Option<SelectionPoint> = None;
    let r = handle_translate_click(&mut start, text, 0, 0);
    assert!(r.request.is_none() && !r.finished && start.is_none());
    let r = handle_translate_click(&mut start, text, 0, 12);
    assert_eq!(r.request.as_deref(), Some("three"));
    assert!(!r.finished);
    let p = start.clone().unwrap();
    assert_eq!((p.word_start, p.word_end, p.word.as_str()), (11, 16, "three"));
    let r = handle_translate_click(&mut start, text, 0, 2);
    assert_eq!(r.request.as_deref(), Some("one, two three"));
    assert!(r.finished);
    assert!(start.is_none());
    // A second click on another page asks for nothing and ends the mode.
    handle_translate_click(&mut start, text, 0, 8);
    let r = handle_translate_click(&mut start, text, 1, 8);
    assert!(r.request.is_none() && r.finished);
}

#[test]
fn chapter_rows_are_flattened_depth_first() {
    let entries = vec![
        BookmarkEntry {
            title: "One".to_string(),
            page_index: 0,
            depth: 0,
            children: vec![BookmarkEntry {
                title: "One.A".to_string(),
                page_index: 2,
                depth: 1,
                children: Vec::new(),
            }],
        },
        BookmarkEntry { title: "Two".to_string(), page_index: 5, depth: 0, children: Vec::new() },
    ];
    let rows = flatten_chapters_entries(&entries, 0);
    let got: Vec<(&str, u32, usize)> =
        rows.iter().map(|r| (r.title.as_str(), r.page_index, r.depth)).collect();
    assert_eq!(got, vec![("One", 0, 0), ("One.A", 2, 1), ("Two", 5, 0)]);
}

#[test]
fn current_chapter_is_latest_started() {
    assert_eq!(select_current_chapter(&vec![0, 2, 5], 4), Some(1));
    assert_eq!(select_current_chapter(&vec![0, 2, 2, 5], 3), Some(2));
    assert_eq!(select_current_chapter(&vec![5, 3, 5], 6), Some(2));
    assert_eq!(select_current_chapter(&vec![3, 4], 1), None);
}

#[test]
fn list_positions() {
    assert_eq!(next_annotation_position(0, 3), Some(1));
    assert_eq!(next_annotation_position(2, 3), None);
    assert_eq!(next_annotation_position(INVALID_LIST_POSITION, 3), None);
    assert_eq!(prev_annotation_position(2), Some(1));
    assert_eq!(prev_annotation_position(0), None);
    assert_eq!(prev_annotation_position(INVALID_LIST_POSITION), None);
    assert_eq!(last_position(4), Some(3));
    assert_eq!(last_position(0), None);
    let ids = vec![10, 20];
    assert_eq!(get_selected_annotation_id(TocMode::Annotations, 1, &ids), Some(20));
    assert_eq!(get_selected_annotation_id(TocMode::Chapters, 1, &ids), None);
    assert_eq!(get_selected_annotation_id(TocMode::Annotations, 2, &ids), None);
    assert_eq!(get_selected_annotation_id(TocMode::Annotations, INVALID_LIST_POSITION, &ids), None);
}

#[test]
fn annotation_list_updates() {
    let mut list = vec![ann(1, 0, 0), ann(2, 1, 0), ann(1, 2, 0)];
    update_list_annotations(&mut list, ann(1, 9, 9));
    let ids: Vec<(i64, usize)> = list.iter().map(|a| (a.id, a.start_page)).collect();
    assert_eq!(ids, vec![(2, 1), (1, 2), (1, 9)]);
    update_list_annotations(&mut list, ann(5, 0, 0));
    assert_eq!(list.len(), 4);
    remove_listbox_annotation(&mut list, 2);
    let ids: Vec<i64> = list.iter().map(|a| a.id).collect();
    assert_eq!(ids, vec![1, 1, 5]);
    remove_listbox_annotation(&mut list, 42);
    assert_eq!(list.len(), 3);
}

#[test]
fn note_editor_keys() {
    assert_eq!(annotation_panel_key(KEY_ESCAPE, 0), PanelKey::Cancel);
    assert_eq!(annotation_panel_key(KEY_RETURN, CONTROL_MASK), PanelKey::Save);
    assert_eq!(annotation_panel_key(KEY_RETURN, 0), PanelKey::Pass);
    assert_eq!(annotation_panel_key(KEY_J, CONTROL_MASK), PanelKey::Pass);
}
