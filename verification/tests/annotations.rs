use eyers::modes::app_mode::WordCursor;
use eyers::services::annotations::{
    annotation_to_edit, export_to_markdown, find_annotation_at_position,
    find_next_annotation_at_position, find_overlapping_annotations,
    find_prev_annotation_at_position, is_position_in_annotation, ranges_overlap,
    Annotation, AnnotationError,
};

fn ann(id: i64, sp: usize, sw: usize, ep: usize, ew: usize, text: &str, note: &str) -> Annotation {
    Annotation {
        id,
        pdf_path: "test.pdf".to_string(),
        start_page: sp,
        start_word: sw,
        end_page: ep,
        end_word: ew,
        selected_text: text.to_string(),
        note: note.to_string(),
        created_at: 0,
        updated_at: 0,
    }
}

#[test]
fn test_is_position_in_annotation() {
    let ann = Annotation {
        id: 1,
        pdf_path: "test.pdf".to_string(),
        start_page: 0,
        start_word: 5,
        end_page: 0,
        end_word: 10,
        selected_text: "test".to_string(),
        note: "note".to_string(),
        created_at: 0,
        updated_at: 0,
    };

    // Inside
    assert!(is_position_in_annotation(&ann, 0, 7));
    // At start
    assert!(is_position_in_annotation(&ann, 0, 5));
    // At end
    assert!(is_position_in_annotation(&ann, 0, 10));
    // Before
    assert!(!is_position_in_annotation(&ann, 0, 4));
    // After
    assert!(!is_position_in_annotation(&ann, 0, 11));
}

#[test]
fn test_ranges_overlap() {
    let ann = Annotation {
        id: 1,
        pdf_path: "test.pdf".to_string(),
        start_page: 0,
        start_word: 5,
        end_page: 0,
        end_word: 10,
        selected_text: "test".to_string(),
        note: "note".to_string(),
        created_at: 0,
        updated_at: 0,
    };

    // Partial overlap
    assert!(ranges_overlap(&ann, 0, 8, 0, 15));
    // Full overlap (selection contains annotation)
    assert!(ranges_overlap(&ann, 0, 0, 0, 20));
    // No overlap (before)
    assert!(!ranges_overlap(&ann, 0, 0, 0, 4));
    // No overlap (after)
    assert!(!ranges_overlap(&ann, 0, 11, 0, 15));
}

#[test]
fn cross_page_annotation_contains_positions_between() {
    let a = ann(1, 1, 40, 3, 2, "x", "");
    assert!(is_position_in_annotation(&a, 2, 0));
    assert!(is_position_in_annotation(&a, 1, 1000));
    assert!(is_position_in_annotation(&a, 3, 2));
    assert!(!is_position_in_annotation(&a, 3, 3));
    assert!(!is_position_in_annotation(&a, 1, 39));
}

#[test]
fn point_range_overlaps_exactly_when_contained() {
    let a = ann(1, 0, 5, 0, 10, "x", "");
    for w in 0..15 {
        assert_eq!(ranges_overlap(&a, 0, w, 0, w), is_position_in_annotation(&a, 0, w));
    }
}

fn sample() -> Vec<Annotation> {
    vec![
        ann(1, 0, 2, 0, 4, "alpha", "first"),
        ann(2, 1, 0, 1, 3, "beta", ""),
        ann(3, 2, 7, 3, 1, "gamma", "third"),
    ]
}

#[test]
fn next_annotation_starts_after_position() {
    let r = find_next_annotation_at_position(sample(), 0, 3).unwrap();
    assert_eq!(r.id, 2);
    let r = find_next_annotation_at_position(sample(), 0, 1).unwrap();
    assert_eq!(r.id, 1);
    assert!(find_next_annotation_at_position(sample(), 2, 7).is_none());
}

#[test]
fn prev_annotation_ends_before_position() {
    let r = find_prev_annotation_at_position(sample(), 1, 4).unwrap();
    assert_eq!(r.id, 2);
    let r = find_prev_annotation_at_position(sample(), 1, 3).unwrap();
    assert_eq!(r.id, 1);
    assert!(find_prev_annotation_at_position(sample(), 0, 4).is_none());
}

#[test]
fn annotation_at_position_is_first_containing() {
    let r = find_annotation_at_position(sample(), 2, 100).unwrap();
    assert_eq!(r.id, 3);
    assert!(find_annotation_at_position(sample(), 0, 5).is_none());
}

#[test]
fn overlapping_annotations_keep_order() {
    let r = find_overlapping_annotations(sample(), 0, 3, 2, 7);
    let ids: Vec<i64> = r.iter().map(|a| a.id).collect();
    assert_eq!(ids, vec![1, 2, 3]);
    let r = find_overlapping_annotations(sample(), 0, 5, 0, 9);
    assert!(r.is_empty());
}

#[test]
fn export_without_annotations() {
    let out = export_to_markdown(&Vec::new(), "book.pdf");
    assert_eq!(out, "# Annotations for book.pdf\n\nNo annotations found.\n");
}

#[test]
fn export_with_annotations() {
    let out = export_to_markdown(&sample(), "book.pdf");
    let expected = "# Annotations for book.pdf\n\n\
> \"alpha\" (Page 1)\n\nfirst\n\n---\n\n\
> \"beta\" (Page 2)\n\n---\n\n\
> \"gamma\" (Page 3)\n\nthird\n\n---\n\n";
    assert_eq!(out, expected);
}

#[test]
fn annotation_to_edit_prefers_selection_overlap() {
    let cursor = WordCursor::new(2, 8);
    let sel = Some((WordCursor::new(0, 0), WordCursor::new(1, 1)));
    assert_eq!(annotation_to_edit(sample(), cursor, sel).unwrap().id, 1);
    assert_eq!(annotation_to_edit(sample(), cursor, None).unwrap().id, 3);
    assert!(annotation_to_edit(sample(), WordCursor::new(5, 0), None).is_none());
}

#[test]
fn annotation_errors_have_messages() {
    assert_eq!(
        AnnotationError::DatabaseError("disk full".to_string()).to_string(),
        "Database error: disk full"
    );
    assert_eq!(AnnotationError::NotFound.to_string(), "Annotation not found");
}

#[test]
fn annotation_accessors() {
    let a = ann(9, 4, 6, 5, 1, "t", "n");
    assert_eq!(a.get_id(), 9);
    assert_eq!(a.get_start_word_cursor(), WordCursor::new(4, 6));
}

#[test]
fn annotations_equal_by_id_and_ordered_by_start() {
    let a = ann(1, 2, 5, 2, 6, "a", "");
    let b = ann(1, 0, 0, 0, 0, "b", "other");
    let c = ann(2, 2, 7, 2, 8, "c", "");
    assert!(a == b);
    assert!(a != c);
    assert!(b < a);
    assert!(a < c);
    assert_eq!(a.partial_cmp(&ann(5, 2, 5, 9, 9, "", "")), Some(std::cmp::Ordering::Equal));
}
