//! An annotation as an item of the contents panel's annotation list, and the order in
//! which the list shows its items: by where they start.
use vstd::prelude::*;
use std::cmp::Ordering;
use crate::modes::app_mode::WordCursor;
use crate::services::annotation_order::start_order;
use crate::services::annotations::{Annotation, AnnotationId};

verus! {

/// An item of the annotation list.
#[derive(Debug)]
pub struct AnnotationObject {
    annotation: Annotation,
}

impl Default for AnnotationObject {
    fn default() -> (r: Self)
        ensures
            r.annotation().id == 0,
            r.annotation().pdf_path@ == Seq::<char>::empty(),
            r.annotation().start_page == 0,
            r.annotation().start_word == 0,
            r.annotation().end_page == 0,
            r.annotation().end_word == 0,
            r.annotation().selected_text@ == Seq::<char>::empty(),
            r.annotation().note@ == Seq::<char>::empty(),
            r.annotation().created_at == 0,
            r.annotation().updated_at == 0,
    {
        AnnotationObject { annotation: Annotation::default() }
    }
}

impl AnnotationObject {
    /// The annotation the item shows.
    pub closed spec fn annotation(&self) -> Annotation {
        self.annotation
    }

    /// An item showing `annotation`.
    pub fn new(annotation: Annotation) -> (r: Self)
        ensures
            r.annotation() == annotation,
    {
        AnnotationObject { annotation }
    }

    /// The annotation's id.
    pub fn id(&self) -> (r: AnnotationId)
        ensures
            r == self.annotation().id,
    {
        self.annotation.id
    }

    /// The page the annotation starts on.
    pub fn start_page(&self) -> (r: usize)
        ensures
            r == self.annotation().start_page,
    {
        self.annotation.start_page
    }

    /// The word the annotation starts at.
    pub fn start_word(&self) -> (r: usize)
        ensures
            r == self.annotation().start_word,
    {
        self.annotation.start_word
    }

    /// The annotated text.
    pub fn selected_text(&self) -> (r: String)
        ensures
            r@ == self.annotation().selected_text@,
    {
        self.annotation.selected_text.clone()
    }

    /// The annotation's note.
    pub fn note(&self) -> (r: String)
        ensures
            r@ == self.annotation().note@,
    {
        self.annotation.note.clone()
    }

    /// The cursor on the annotation's first word.
    pub fn get_start_word_cursor(&self) -> (r: WordCursor)
        ensures
            r == (WordCursor {
                page_index: self.annotation().start_page,
                word_index: self.annotation().start_word,
            }),
    {
        self.annotation.get_start_word_cursor()
    }
}

impl PartialEq for AnnotationObject {
    fn eq(&self, other: &Self) -> (r: bool) {
        self.annotation.id == other.annotation.id
    }
}

impl vstd::std_specs::cmp::PartialEqSpecImpl for AnnotationObject {
    open spec fn obeys_eq_spec() -> bool {
        true
    }

    open spec fn eq_spec(&self, other: &Self) -> bool {
        self.annotation().id == other.annotation().id
    }
}

/// The order of two list items: by start page, then start word.
pub fn compare_annotations(a: &AnnotationObject, b: &AnnotationObject) -> (r: Ordering)
    ensures
        r == start_order(a.annotation(), b.annotation()),
{
    let (pa, pb) = (a.start_page(), b.start_page());
    if pa < pb {
        return Ordering::Less;
    }
    if pa > pb {
        return Ordering::Greater;
    }
    let (wa, wb) = (a.start_word(), b.start_word());
    if wa < wb {
        Ordering::Less
    } else if wa > wb {
        Ordering::Greater
    } else {
        Ordering::Equal
    }
}

} // verus!
