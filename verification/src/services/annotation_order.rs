//! Equality and order of annotations: two annotations are equal when they have the same
//! id, and annotations are ordered by where they start.
use vstd::prelude::*;
use std::cmp::Ordering;
use vstd::std_specs::cmp::PartialOrdSpec;
use crate::services::annotations::Annotation;

verus! {

/// The order of two annotations by start page, then start word.
pub open spec fn start_order(a: Annotation, b: Annotation) -> Ordering {
    if a.start_page < b.start_page {
        Ordering::Less
    } else if a.start_page > b.start_page {
        Ordering::Greater
    } else if a.start_word < b.start_word {
        Ordering::Less
    } else if a.start_word > b.start_word {
        Ordering::Greater
    } else {
        Ordering::Equal
    }
}

impl PartialEq for Annotation {
    fn eq(&self, other: &Self) -> (r: bool) {
        self.id == other.id
    }
}

impl vstd::std_specs::cmp::PartialEqSpecImpl for Annotation {
    open spec fn obeys_eq_spec() -> bool {
        true
    }

    open spec fn eq_spec(&self, other: &Self) -> bool {
        self.id == other.id
    }
}

impl PartialOrd for Annotation {
    fn partial_cmp(&self, other: &Self) -> (r: Option<Ordering>) {
        if self.start_page < other.start_page {
            Some(Ordering::Less)
        } else if self.start_page > other.start_page {
            Some(Ordering::Greater)
        } else if self.start_word < other.start_word {
            Some(Ordering::Less)
        } else if self.start_word > other.start_word {
            Some(Ordering::Greater)
        } else {
            Some(Ordering::Equal)
        }
    }
}

impl vstd::std_specs::cmp::PartialOrdSpecImpl for Annotation {
    open spec fn obeys_partial_cmp_spec() -> bool {
        true
    }

    open spec fn partial_cmp_spec(&self, other: &Self) -> Option<Ordering> {
        Some(start_order(*self, *other))
    }
}

/// The start order is a total preorder: comparing the other way round flips the result,
/// it is transitive, and two annotations are in the same place exactly when they start at
/// the same word.
pub proof fn lemma_start_order_laws(a: Annotation, b: Annotation, c: Annotation)
    ensures
        start_order(a, b) == Ordering::Less <==> start_order(b, a) == Ordering::Greater,
        start_order(a, b) == Ordering::Equal <==> (a.start_page == b.start_page && a.start_word
            == b.start_word),
        start_order(a, b) != Ordering::Greater && start_order(b, c) != Ordering::Greater
            ==> start_order(a, c) != Ordering::Greater,
        start_order(a, b) == Ordering::Less && start_order(b, c) == Ordering::Less ==> start_order(
            a,
            c,
        ) == Ordering::Less,
{
}

/// Annotations are ordered as their starts lie in the document: one that starts on an
/// earlier page, or earlier on the same page, comes first, whatever the other fields say;
/// only two that start at the same word compare equal. `partial_cmp` gives the same order.
pub proof fn lemma_start_order_is_document_order(a: Annotation, b: Annotation)
    ensures
        start_order(a, b) == Ordering::Less <==> (a.start_page < b.start_page || (a.start_page
            == b.start_page && a.start_word < b.start_word)),
        start_order(a, b) == Ordering::Greater <==> (b.start_page < a.start_page || (
        a.start_page == b.start_page && b.start_word < a.start_word)),
        start_order(a, b) == Ordering::Equal <==> (a.start_page == b.start_page && a.start_word
            == b.start_word),
        a.partial_cmp_spec(&b) == Some(start_order(a, b)),
{
}

} // verus!
