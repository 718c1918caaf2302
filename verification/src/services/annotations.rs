//! Annotations of a PDF: positions, searches over the annotations of a document, and
//! their export to Markdown. Reading and writing the annotation database is the
//! application's part; these functions take the annotations it loaded, which it loads
//! ordered by start page, then start word.
use vstd::prelude::*;
use crate::modes::app_mode::WordCursor;
use crate::text::{decimal, push_decimal, push_str};

verus! {

pub type AnnotationId = i64;

/// An annotation of a PDF: a range of words, the text it covers, and a note.
#[derive(Debug, Clone)]
pub struct Annotation {
    pub id: AnnotationId,
    pub pdf_path: String,
    pub start_page: usize,
    pub start_word: usize,
    pub end_page: usize,
    pub end_word: usize,
    pub selected_text: String,
    pub note: String,
    pub created_at: i64,
    pub updated_at: i64,
}

impl Default for Annotation {
    fn default() -> (r: Self)
        ensures
            r.id == 0,
            r.pdf_path@ == Seq::<char>::empty(),
            r.start_page == 0,
            r.start_word == 0,
            r.end_page == 0,
            r.end_word == 0,
            r.selected_text@ == Seq::<char>::empty(),
            r.note@ == Seq::<char>::empty(),
            r.created_at == 0,
            r.updated_at == 0,
    {
        Annotation {
            id: 0,
            pdf_path: String::new(),
            start_page: 0,
            start_word: 0,
            end_page: 0,
            end_word: 0,
            selected_text: String::new(),
            note: String::new(),
            created_at: 0,
            updated_at: 0,
        }
    }
}

/// Why an annotation operation failed.
#[derive(Debug)]
pub enum AnnotationError {
    DatabaseError(String),
    NotFound,
}

/// The message of an error.
pub open spec fn annotation_error_message(e: AnnotationError) -> Seq<char> {
    match e {
        AnnotationError::DatabaseError(msg) => "Database error: "@ + msg@,
        AnnotationError::NotFound => "Annotation not found"@,
    }
}

impl AnnotationError {
    /// The message shown for the error.
    pub fn to_string(&self) -> (r: String)
        ensures
            r@ == annotation_error_message(*self),
    {
        let mut s = String::new();
        match self {
            AnnotationError::DatabaseError(msg) => {
                push_str(&mut s, "Database error: ");
                push_str(&mut s, msg.as_str());
            },
            AnnotationError::NotFound => {
                push_str(&mut s, "Annotation not found");
            },
        }
        s
    }
}

impl Annotation {
    /// The cursor on the annotation's first word.
    pub fn get_start_word_cursor(&self) -> (r: WordCursor)
        ensures
            r == (WordCursor { page_index: self.start_page, word_index: self.start_word }),
    {
        WordCursor::new(self.start_page, self.start_word)
    }

    /// The annotation's id.
    pub fn get_id(&self) -> (r: AnnotationId)
        ensures
            r == self.id,
    {
        self.id
    }
}

/// (page_a, word_a) comes before or is (page_b, word_b).
pub open spec fn pos_le(page_a: usize, word_a: usize, page_b: usize, word_b: usize) -> bool {
    page_a < page_b || (page_a == page_b && word_a <= word_b)
}

/// (page_a, word_a) comes strictly before (page_b, word_b).
pub open spec fn pos_lt(page_a: usize, word_a: usize, page_b: usize, word_b: usize) -> bool {
    page_a < page_b || (page_a == page_b && word_a < word_b)
}

/// The position lies within the annotation's range, both ends included.
pub open spec fn position_in(ann: Annotation, page: usize, word: usize) -> bool {
    pos_le(ann.start_page, ann.start_word, page, word) && pos_le(
        page,
        word,
        ann.end_page,
        ann.end_word,
    )
}

/// The annotation's range and the range from (start_page, start_word) to
/// (end_page, end_word) share a position.
pub open spec fn overlaps(
    ann: Annotation,
    start_page: usize,
    start_word: usize,
    end_page: usize,
    end_word: usize,
) -> bool {
    pos_le(ann.start_page, ann.start_word, end_page, end_word) && pos_le(
        start_page,
        start_word,
        ann.end_page,
        ann.end_word,
    )
}

fn le_pos(page_a: usize, word_a: usize, page_b: usize, word_b: usize) -> (r: bool)
    ensures
        r == pos_le(page_a, word_a, page_b, word_b),
{
    page_a < page_b || (page_a == page_b && word_a <= word_b)
}

fn lt_pos(page_a: usize, word_a: usize, page_b: usize, word_b: usize) -> (r: bool)
    ensures
        r == pos_lt(page_a, word_a, page_b, word_b),
{
    page_a < page_b || (page_a == page_b && word_a < word_b)
}

/// Whether the word at (page_index, word_index) lies within the annotation's range.
pub fn is_position_in_annotation(ann: &Annotation, page_index: usize, word_index: usize) -> (r:
    bool)
    ensures
        r == position_in(*ann, page_index, word_index),
{
    le_pos(ann.start_page, ann.start_word, page_index, word_index) && le_pos(
        page_index,
        word_index,
        ann.end_page,
        ann.end_word,
    )
}

/// Whether the annotation's range and the given range overlap: each starts before the
/// other ends.
pub fn ranges_overlap(
    ann: &Annotation,
    start_page: usize,
    start_word: usize,
    end_page: usize,
    end_word: usize,
) -> (r: bool)
    ensures
        r == overlaps(*ann, start_page, start_word, end_page, end_word),
{
    le_pos(ann.start_page, ann.start_word, end_page, end_word) && le_pos(
        start_page,
        start_word,
        ann.end_page,
        ann.end_word,
    )
}

/// Index `i` holds the last annotation of `anns` that ends strictly before (page, word).
pub open spec fn is_last_ending_before(anns: Seq<Annotation>, i: int, page: usize, word: usize) -> bool {
    &&& 0 <= i < anns.len()
    &&& pos_lt(anns[i].end_page, anns[i].end_word, page, word)
    &&& forall|j: int|
        i < j < anns.len() ==> !pos_lt(#[trigger] anns[j].end_page, anns[j].end_word, page, word)
}

/// Index `i` holds the first annotation of `anns` that starts strictly after (page, word).
pub open spec fn is_first_starting_after(anns: Seq<Annotation>, i: int, page: usize, word: usize) -> bool {
    &&& 0 <= i < anns.len()
    &&& pos_lt(page, word, anns[i].start_page, anns[i].start_word)
    &&& forall|j: int|
        0 <= j < i ==> !pos_lt(page, word, #[trigger] anns[j].start_page, anns[j].start_word)
}

/// Index `i` holds the first annotation of `anns` whose range contains (page, word).
pub open spec fn is_first_containing(anns: Seq<Annotation>, i: int, page: usize, word: usize) -> bool {
    &&& 0 <= i < anns.len()
    &&& position_in(anns[i], page, word)
    &&& forall|j: int| 0 <= j < i ==> !position_in(#[trigger] anns[j], page, word)
}

/// A range of a single position overlaps an annotation exactly when the annotation
/// contains that position.
pub proof fn lemma_point_range_overlap(ann: Annotation, page: usize, word: usize)
    ensures
        overlaps(ann, page, word, page, word) == position_in(ann, page, word),
{
}

/// At most one index holds the last annotation ending before a position.
pub proof fn lemma_last_ending_before_unique(anns: Seq<Annotation>, i: int, j: int, page: usize, word: usize)
    requires
        is_last_ending_before(anns, i, page, word),
        is_last_ending_before(anns, j, page, word),
    ensures
        i == j,
{
    if i < j {
        assert(!pos_lt(anns[j].end_page, anns[j].end_word, page, word));
    } else if j < i {
        assert(!pos_lt(anns[i].end_page, anns[i].end_word, page, word));
    }
}

/// At most one index holds the first annotation starting after a position.
pub proof fn lemma_first_starting_after_unique(anns: Seq<Annotation>, i: int, j: int, page: usize, word: usize)
    requires
        is_first_starting_after(anns, i, page, word),
        is_first_starting_after(anns, j, page, word),
    ensures
        i == j,
{
    if i < j {
        assert(!pos_lt(page, word, anns[i].start_page, anns[i].start_word));
    } else if j < i {
        assert(!pos_lt(page, word, anns[j].start_page, anns[j].start_word));
    }
}

/// The index of the last annotation, in the given order, that ends before the position.
pub fn index_of_prev_annotation(annotations: &Vec<Annotation>, page_index: usize, word_index: usize) -> (r: Option<usize>)
    ensures
        r matches Some(i) ==> is_last_ending_before(annotations@, i as int, page_index, word_index),
        r is None ==> forall|j: int|
            0 <= j < annotations.len() ==> !pos_lt(
                #[trigger] annotations@[j].end_page,
                annotations@[j].end_word,
                page_index,
                word_index,
            ),
{
    let mut i = annotations.len();
    while i > 0
        invariant
            i <= annotations.len(),
            forall|j: int|
                i <= j < annotations.len() ==> !pos_lt(
                    #[trigger] annotations@[j].end_page,
                    annotations@[j].end_word,
                    page_index,
                    word_index,
                ),
        decreases i,
    {
        let k = i - 1;
        if lt_pos(annotations[k].end_page, annotations[k].end_word, page_index, word_index) {
            return Some(k);
        }
        i = k;
    }
    None
}

/// The index of the first annotation, in the given order, that starts after the position.
pub fn index_of_next_annotation(annotations: &Vec<Annotation>, page_index: usize, word_index: usize) -> (r: Option<usize>)
    ensures
        r matches Some(i) ==> is_first_starting_after(annotations@, i as int, page_index, word_index),
        r is None ==> forall|j: int|
            0 <= j < annotations.len() ==> !pos_lt(
                page_index,
                word_index,
                #[trigger] annotations@[j].start_page,
                annotations@[j].start_word,
            ),
{
    let mut i: usize = 0;
    while i < annotations.len()
        invariant
            i <= annotations.len(),
            forall|j: int|
                0 <= j < i ==> !pos_lt(
                    page_index,
                    word_index,
                    #[trigger] annotations@[j].start_page,
                    annotations@[j].start_word,
                ),
        decreases annotations.len() - i,
    {
        if lt_pos(page_index, word_index, annotations[i].start_page, annotations[i].start_word) {
            return Some(i);
        }
        i = i + 1;
    }
    None
}

/// The last annotation, in the given order, that ends before the position.
pub fn find_prev_annotation_at_position(
    annotations: Vec<Annotation>,
    page_index: usize,
    word_index: usize,
) -> (r: Option<Annotation>)
    ensures
        r matches Some(a) ==> exists|i: int|
            #[trigger] is_last_ending_before(annotations@, i, page_index, word_index) && a
                == annotations@[i],
        r is None ==> forall|j: int|
            0 <= j < annotations.len() ==> !pos_lt(
                #[trigger] annotations@[j].end_page,
                annotations@[j].end_word,
                page_index,
                word_index,
            ),
{
    let mut list = annotations;
    match index_of_prev_annotation(&list, page_index, word_index) {
        Some(i) => Some(list.remove(i)),
        None => None,
    }
}

/// The first annotation, in the given order, that starts after the position.
pub fn find_next_annotation_at_position(
    annotations: Vec<Annotation>,
    page_index: usize,
    word_index: usize,
) -> (r: Option<Annotation>)
    ensures
        r matches Some(a) ==> exists|i: int|
            #[trigger] is_first_starting_after(annotations@, i, page_index, word_index) && a
                == annotations@[i],
        r is None ==> forall|j: int|
            0 <= j < annotations.len() ==> !pos_lt(
                page_index,
                word_index,
                #[trigger] annotations@[j].start_page,
                annotations@[j].start_word,
            ),
{
    let mut list = annotations;
    match index_of_next_annotation(&list, page_index, word_index) {
        Some(i) => Some(list.remove(i)),
        None => None,
    }
}

/// The first annotation, in the given order, whose range contains the position.
pub fn find_annotation_at_position(
    annotations: Vec<Annotation>,
    page_index: usize,
    word_index: usize,
) -> (r: Option<Annotation>)
    ensures
        r matches Some(a) ==> exists|i: int|
            #[trigger] is_first_containing(annotations@, i, page_index, word_index) && a
                == annotations@[i],
        r is None ==> forall|j: int|
            0 <= j < annotations.len() ==> !position_in(
                #[trigger] annotations@[j],
                page_index,
                word_index,
            ),
{
    let ghost all = annotations@;
    let mut list = annotations;
    let mut i: usize = 0;
    while i < list.len()
        invariant
            list@ == all,
            all == annotations@,
            i <= all.len(),
            forall|j: int| 0 <= j < i ==> !position_in(#[trigger] all[j], page_index, word_index),
        decreases all.len() - i,
    {
        if is_position_in_annotation(&list[i], page_index, word_index) {
            let a = list.remove(i);
            assert(is_first_containing(all, i as int, page_index, word_index));
            return Some(a);
        }
        i = i + 1;
    }
    None
}

/// The annotations, in the given order, whose ranges overlap the given range.
pub fn find_overlapping_annotations(
    annotations: Vec<Annotation>,
    start_page: usize,
    start_word: usize,
    end_page: usize,
    end_word: usize,
) -> (r: Vec<Annotation>)
    ensures
        r@ == annotations@.filter(
            |a: Annotation| overlaps(a, start_page, start_word, end_page, end_word),
        ),
{
    let ghost all = annotations@;
    let ghost pred = |a: Annotation| overlaps(a, start_page, start_word, end_page, end_word);
    let mut src = annotations;
    let mut rev: Vec<Annotation> = Vec::new();
    while src.len() > 0
        invariant
            src@ + rev@.reverse() == all,
        decreases src.len(),
    {
        let ghost before_src = src@;
        let ghost before_rev = rev@;
        let a = src.pop().unwrap();
        rev.push(a);
        assert(rev@.reverse() =~= seq![a] + before_rev.reverse());
        assert(before_src =~= src@.push(a));
        assert(src@ + rev@.reverse() =~= before_src + before_rev.reverse());
    }
    assert(rev@.reverse() =~= all);
    let mut out: Vec<Annotation> = Vec::new();
    let ghost mut done: Seq<Annotation> = seq![];
    while rev.len() > 0
        invariant
            done + rev@.reverse() == all,
            out@ == done.filter(pred),
            pred == (|a: Annotation| overlaps(a, start_page, start_word, end_page, end_word)),
        decreases rev.len(),
    {
        let ghost before_rev = rev@;
        let a = rev.pop().unwrap();
        assert(before_rev.reverse() =~= seq![a] + rev@.reverse());
        proof {
            assert(done.push(a).drop_last() =~= done);
            reveal_with_fuel(Seq::filter, 1);
            done = done.push(a);
        }
        if ranges_overlap(&a, start_page, start_word, end_page, end_word) {
            out.push(a);
        }
        assert(done + rev@.reverse() =~= all);
    }
    assert(done =~= all);
    out
}

/// The Markdown entry of one annotation: the highlighted text quoted with its page number
/// (counted from 1), the note when there is one, and a rule.
pub open spec fn markdown_entry(a: Annotation) -> Seq<char> {
    "> \""@ + a.selected_text@ + "\" (Page "@ + decimal((a.start_page + 1) as nat) + ")\n\n"@
        + (if a.note@.len() > 0 {
        a.note@ + "\n\n"@
    } else {
        seq![]
    }) + "---\n\n"@
}

/// The Markdown entries of the annotations, in order.
pub open spec fn markdown_entries(anns: Seq<Annotation>) -> Seq<char>
    decreases anns.len(),
{
    if anns.len() == 0 {
        seq![]
    } else {
        markdown_entries(anns.drop_last()) + markdown_entry(anns.last())
    }
}

/// The Markdown export of the annotations of the PDF named `pdf_name`.
pub open spec fn markdown_export(anns: Seq<Annotation>, pdf_name: Seq<char>) -> Seq<char> {
    if anns.len() == 0 {
        "# Annotations for "@ + pdf_name + "\n\nNo annotations found.\n"@
    } else {
        "# Annotations for "@ + pdf_name + "\n\n"@ + markdown_entries(anns)
    }
}

/// Exports the annotations of a PDF to Markdown: a title, then for each annotation
/// > "highlighted text" (Page N)
/// followed by the note, if any, and a rule.
pub fn export_to_markdown(annotations: &Vec<Annotation>, pdf_name: &str) -> (r: String)
    requires
        forall|i: int| 0 <= i < annotations.len() ==> #[trigger] annotations@[i].start_page < usize::MAX,
    ensures
        r@ == markdown_export(annotations@, pdf_name@),
{
    let mut output = String::new();
    push_str(&mut output, "# Annotations for ");
    push_str(&mut output, pdf_name);
    if annotations.len() == 0 {
        push_str(&mut output, "\n\nNo annotations found.\n");
        return output;
    }
    push_str(&mut output, "\n\n");
    let ghost head = output@;
    let mut i: usize = 0;
    while i < annotations.len()
        invariant
            i <= annotations.len(),
            output@ == head + markdown_entries(annotations@.take(i as int)),
            forall|i: int| 0 <= i < annotations.len() ==> #[trigger] annotations@[i].start_page < usize::MAX,
        decreases annotations.len() - i,
    {
        let ann = &annotations[i];
        let page_num = ann.start_page + 1;
        let ghost before = output@;
        push_str(&mut output, "> \"");
        push_str(&mut output, ann.selected_text.as_str());
        push_str(&mut output, "\" (Page ");
        push_decimal(&mut output, page_num as u64);
        push_str(&mut output, ")\n\n");
        if !ann.note.as_str().is_empty() {
            push_str(&mut output, ann.note.as_str());
            push_str(&mut output, "\n\n");
        }
        push_str(&mut output, "---\n\n");
        assert(output@ =~= before + markdown_entry(*ann));
        assert(annotations@.take(i + 1).drop_last() =~= annotations@.take(i as int));
        i = i + 1;
    }
    assert(annotations@.take(annotations.len() as int) =~= annotations@);
    output
}

/// The first element of a sequence, if it has one.
pub open spec fn first_of<A>(s: Seq<A>) -> Option<A> {
    if s.len() > 0 {
        Some(s[0])
    } else {
        None
    }
}

/// The annotation that annotating at the cursor edits: with a selection, the first one
/// overlapping the selection; without, the first one containing the cursor.
pub fn annotation_to_edit(
    annotations: Vec<Annotation>,
    cursor: WordCursor,
    selection: Option<(WordCursor, WordCursor)>,
) -> (r: Option<Annotation>)
    ensures
        selection matches Some((s, e)) ==> r == first_of(
            annotations@.filter(
                |a: Annotation| overlaps(a, s.page_index, s.word_index, e.page_index, e.word_index),
            ),
        ),
        selection is None ==> (r matches Some(a) ==> exists|i: int|
            #[trigger] is_first_containing(annotations@, i, cursor.page_index, cursor.word_index)
                && a == annotations@[i]),
        selection is None ==> (r is None ==> forall|j: int|
            0 <= j < annotations.len() ==> !position_in(
                #[trigger] annotations@[j],
                cursor.page_index,
                cursor.word_index,
            )),
{
    match selection {
        Some((start, end)) => {
            let mut overlapping = find_overlapping_annotations(
                annotations,
                start.page_index,
                start.word_index,
                end.page_index,
                end.word_index,
            );
            if overlapping.len() > 0 {
                Some(overlapping.remove(0))
            } else {
                None
            }
        },
        None => find_annotation_at_position(annotations, cursor.page_index, cursor.word_index),
    }
}


} // verus!
