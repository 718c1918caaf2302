//! The contents panel: its chapter rows, which chapter is current, moving the selection
//! through its lists, and keeping its list of annotations up to date. The widgets are the
//! application's part; these functions decide what they show and select.
use vstd::prelude::*;
use crate::services::annotations::{Annotation, AnnotationId};
use crate::services::bookmarks::BookmarkEntry;
use crate::text::push_str;

verus! {

/// What the table-of-contents panel lists.
#[derive(Debug, Clone, Copy, PartialEq, Eq, Structural)]
pub enum TocMode {
    Annotations,
    Chapters,
}

impl Default for TocMode {
    fn default() -> (r: Self)
        ensures
            r == TocMode::Chapters,
    {
        TocMode::Chapters
    }
}

/// The list position GTK uses for "no position".
pub const INVALID_LIST_POSITION: u32 = 0xffff_ffff;

/// A row of the chapter list: a chapter's page, title and indentation depth.
#[derive(Debug)]
pub struct ChapterRow {
    pub page_index: u32,
    pub title: String,
    pub depth: usize,
}

/// A chapter row as (title, page, depth).
pub type RowView = (Seq<char>, u32, int);

/// How many levels the tallest of a list of chapters spans: 0 for none.
pub open spec fn chapters_height(entries: Seq<BookmarkEntry>) -> nat
    decreases entries,
{
    if entries.len() == 0 {
        0
    } else {
        let rest = chapters_height(entries.drop_last());
        let last = 1 + chapters_height(entries.last().children@);
        if rest >= last {
            rest
        } else {
            last
        }
    }
}

/// The rows of a list of chapters at depth `depth`: each chapter, followed by the rows of
/// its sub-chapters one level deeper.
pub open spec fn chapter_rows(entries: Seq<BookmarkEntry>, depth: int) -> Seq<RowView>
    decreases entries,
{
    if entries.len() == 0 {
        Seq::empty()
    } else {
        let e = entries.last();
        chapter_rows(entries.drop_last(), depth) + seq![(e.title@, e.page_index, depth)]
            + chapter_rows(e.children@, depth + 1)
    }
}

/// The rows as (title, page, depth).
pub open spec fn row_views(rows: Seq<ChapterRow>) -> Seq<RowView> {
    rows.map_values(|r: ChapterRow| (r.title@, r.page_index, r.depth as int))
}

proof fn lemma_chapters_height_prefix(entries: Seq<BookmarkEntry>, i: int)
    requires
        0 <= i <= entries.len(),
    ensures
        chapters_height(entries.take(i)) <= chapters_height(entries),
    decreases entries.len(),
{
    if i < entries.len() {
        assert(entries.drop_last().take(i) =~= entries.take(i));
        lemma_chapters_height_prefix(entries.drop_last(), i);
    } else {
        assert(entries.take(i) =~= entries);
    }
}

/// Appends the rows of `entries` at depth `depth`.
fn push_chapter_rows(out: &mut Vec<ChapterRow>, entries: &Vec<BookmarkEntry>, depth: usize)
    requires
        depth + chapters_height(entries@) <= usize::MAX + 1,
    ensures
        row_views(final(out)@) == row_views(old(out)@) + chapter_rows(entries@, depth as int),
    decreases entries@,
{
    let ghost start = row_views(out@);
    let mut i: usize = 0;
    while i < entries.len()
        invariant
            i <= entries.len(),
            depth + chapters_height(entries@) <= usize::MAX + 1,
            row_views(out@) == start + chapter_rows(entries@.take(i as int), depth as int),
        decreases entries.len() - i,
    {
        let e = &entries[i];
        let ghost before = row_views(out@);
        let mut title = String::new();
        push_str(&mut title, e.title.as_str());
        out.push(ChapterRow { page_index: e.page_index, title, depth });
        assert(row_views(out@) =~= before + seq![(e.title@, e.page_index, depth as int)]);
        proof {
            lemma_chapters_height_prefix(entries@, i + 1);
            let pre = entries@.take(i + 1);
            assert(pre.last() == entries@[i as int]);
            assert(pre.drop_last() =~= entries@.take(i as int));
            assert(chapters_height(e.children@) + 1 <= chapters_height(pre));
            assert(decreases_to!(entries@ => entries@[i as int]));
        }
        if e.children.len() > 0 {
            push_chapter_rows(out, &e.children, depth + 1);
        } else {
            assert(chapter_rows(e.children@, depth + 1) =~= Seq::<RowView>::empty());
        }
        proof {
            let pre = entries@.take(i + 1);
            assert(pre.drop_last() =~= entries@.take(i as int));
        }
        assert(row_views(out@) =~= start + chapter_rows(entries@.take(i + 1), depth as int));
        i = i + 1;
    }
    assert(entries@.take(entries.len() as int) =~= entries@);
}

/// The rows of the chapter list: each chapter in order, indented by its nesting depth
/// counted from `initial_depth`, followed by its sub-chapters.
pub fn flatten_chapters_entries(entries: &Vec<BookmarkEntry>, initial_depth: usize) -> (r: Vec<
    ChapterRow,
>)
    requires
        initial_depth + chapters_height(entries@) <= usize::MAX + 1,
    ensures
        row_views(r@) == chapter_rows(entries@, initial_depth as int),
{
    let mut out: Vec<ChapterRow> = Vec::new();
    assert(row_views(out@) =~= Seq::<RowView>::empty());
    push_chapter_rows(&mut out, entries, initial_depth);
    assert(row_views(out@) =~= chapter_rows(entries@, initial_depth as int));
    out
}

/// Row `i` is the current chapter for page `page`: among the rows that start at or before
/// the page, it starts latest, and it is the last of those that start there.
pub open spec fn is_current_chapter(pages: Seq<u32>, page: u32, i: int) -> bool {
    &&& 0 <= i < pages.len()
    &&& pages[i] <= page
    &&& forall|j: int| 0 <= j < pages.len() && pages[j] <= page ==> #[trigger] pages[j] <= pages[i]
    &&& forall|j: int| i < j < pages.len() && pages[j] <= page ==> #[trigger] pages[j] < pages[i]
}

/// The row of the current chapter for page `page`, given the rows' pages in list order;
/// none when every chapter starts after the page.
pub fn select_current_chapter(pages: &Vec<u32>, page: u32) -> (r: Option<usize>)
    ensures
        r is None <==> forall|j: int| 0 <= j < pages.len() ==> #[trigger] pages@[j] > page,
        r matches Some(i) ==> is_current_chapter(pages@, page, i as int),
{
    let mut best: Option<usize> = None;
    let mut best_page: u32 = 0;
    let mut k: usize = 0;
    while k < pages.len()
        invariant
            k <= pages.len(),
            best is None ==> best_page == 0 && forall|j: int|
                0 <= j < k ==> #[trigger] pages@[j] > page,
            best matches Some(i) ==> i < k && best_page == pages@[i as int] && pages@[i as int]
                <= page && (forall|j: int|
                0 <= j < k && pages@[j] <= page ==> #[trigger] pages@[j] <= best_page) && (forall|
                j: int,
            |
                i < j < k && pages@[j] <= page ==> #[trigger] pages@[j] < best_page),
        decreases pages.len() - k,
    {
        let entry_page = pages[k];
        if entry_page <= page && entry_page >= best_page {
            best = Some(k);
            best_page = entry_page;
        }
        k = k + 1;
    }
    best
}

/// The annotation list position after moving down from `current` in a list of `n_items`:
/// none at the last item (or with no position).
pub fn next_annotation_position(current: u32, n_items: u32) -> (r: Option<u32>)
    requires
        n_items > 0,
    ensures
        r == (if current < n_items - 1 {
            Some((current + 1) as u32)
        } else {
            None
        }),
{
    if current < n_items - 1 {
        Some(current + 1)
    } else {
        None
    }
}

/// The annotation list position after moving up from `current`: none at the first item
/// or with no position.
pub fn prev_annotation_position(current: u32) -> (r: Option<u32>)
    ensures
        r == (if current != INVALID_LIST_POSITION && current > 0 {
            Some((current - 1) as u32)
        } else {
            None
        }),
{
    if current != INVALID_LIST_POSITION && current > 0 {
        Some(current - 1)
    } else {
        None
    }
}

/// The position of the last item of a list of `n_items`, if there is one.
pub fn last_position(n_items: u32) -> (r: Option<u32>)
    ensures
        r == (if n_items > 0 {
            Some((n_items - 1) as u32)
        } else {
            None
        }),
{
    if n_items > 0 {
        Some(n_items - 1)
    } else {
        None
    }
}

/// The id of the selected annotation: only when the panel lists annotations and the
/// selected position holds one.
pub fn get_selected_annotation_id(mode: TocMode, position: u32, ids: &Vec<AnnotationId>) -> (r:
    Option<AnnotationId>)
    ensures
        r == (if mode == TocMode::Annotations && position != INVALID_LIST_POSITION && (position
            as int) < ids.len() {
            Some(ids@[position as int])
        } else {
            None
        }),
{
    if mode != TocMode::Annotations || position == INVALID_LIST_POSITION {
        return None;
    }
    let p = position as usize;
    if p < ids.len() {
        Some(ids[p])
    } else {
        None
    }
}

/// Index `i` is the first annotation of the list with id `id`.
pub open spec fn first_with_id(list: Seq<Annotation>, id: AnnotationId, i: int) -> bool {
    &&& 0 <= i < list.len()
    &&& list[i].id == id
    &&& forall|j: int| 0 <= j < i ==> #[trigger] list[j].id != id
}

/// The first position of an annotation with id `id` in the list.
fn index_of_annotation(list: &Vec<Annotation>, id: AnnotationId) -> (r: Option<usize>)
    ensures
        r matches Some(i) ==> first_with_id(list@, id, i as int),
        r is None ==> forall|j: int| 0 <= j < list.len() ==> #[trigger] list@[j].id != id,
{
    let mut i: usize = 0;
    while i < list.len()
        invariant
            i <= list.len(),
            forall|j: int| 0 <= j < i ==> #[trigger] list@[j].id != id,
        decreases list.len() - i,
    {
        if list[i].id == id {
            return Some(i);
        }
        i = i + 1;
    }
    None
}

/// Puts a saved annotation in the list: the first entry with its id, if any, is taken out,
/// and the annotation is added at the end.
pub fn update_list_annotations(list: &mut Vec<Annotation>, new_annotation: Annotation)
    ensures
        (forall|j: int| 0 <= j < old(list).len() ==> #[trigger] old(list)@[j].id != new_annotation.id)
            ==> final(list)@ == old(list)@.push(new_annotation),
        forall|i: int|
            #[trigger] first_with_id(old(list)@, new_annotation.id, i) ==> final(list)@ == old(
                list,
            )@.remove(i).push(new_annotation),
{
    match index_of_annotation(list, new_annotation.id) {
        Some(i) => {
            list.remove(i);
        },
        None => {},
    }
    list.push(new_annotation);
}

/// Takes the first annotation with id `id` out of the list, if there is one.
pub fn remove_listbox_annotation(list: &mut Vec<Annotation>, id: AnnotationId)
    ensures
        (forall|j: int| 0 <= j < old(list).len() ==> #[trigger] old(list)@[j].id != id)
            ==> final(list)@ == old(list)@,
        forall|i: int| #[trigger] first_with_id(old(list)@, id, i) ==> final(list)@ == old(list)@.remove(i),
{
    match index_of_annotation(list, id) {
        Some(i) => {
            list.remove(i);
        },
        None => {},
    }
}

} // verus!
