//! The document outline (bookmarks) as the contents panel lists it. Reading the outline
//! items out of the PDF is the application's part; it hands them over as `OutlineItem`s.
use vstd::prelude::*;
use crate::text::push_str;

verus! {

/// An outline item as the document stores it: a title and a destination page when it has
/// them, and its child items in order.
#[derive(Debug)]
pub struct OutlineItem {
    pub title: Option<String>,
    pub page_index: Option<u32>,
    pub children: Vec<OutlineItem>,
}

/// A chapter of the document: its title, the page it leads to, its sub-chapters, and how
/// deep it is nested (0 for a top-level chapter).
#[derive(Debug)]
pub struct BookmarkEntry {
    pub title: String,
    pub page_index: u32,
    pub children: Vec<BookmarkEntry>,
    pub depth: usize,
}

/// The title shown for an item: its own, or "Untitled".
pub open spec fn entry_title(title: Option<String>) -> Seq<char> {
    match title {
        Some(t) => t@,
        None => "Untitled"@,
    }
}

/// How many levels an outline item spans: 1 for an item without children.
pub open spec fn outline_height(item: OutlineItem) -> nat
    decreases item,
{
    1 + forest_height(item.children@)
}

/// How many levels the tallest of a list of items spans: 0 for none.
pub open spec fn forest_height(items: Seq<OutlineItem>) -> nat
    decreases items,
{
    if items.len() == 0 {
        0
    } else {
        let rest = forest_height(items.drop_last());
        let last = outline_height(items.last());
        if rest >= last {
            rest
        } else {
            last
        }
    }
}

/// `entry` is the chapter of `item` at nesting depth `depth`: the title or "Untitled",
/// the destination or page 0, and its children the chapters of the item's children one
/// level deeper.
pub open spec fn entry_of(item: OutlineItem, entry: BookmarkEntry, depth: int) -> bool
    decreases item,
{
    &&& entry.title@ == entry_title(item.title)
    &&& entry.page_index == match item.page_index {
        Some(p) => p,
        None => 0,
    }
    &&& entry.depth == depth
    &&& entry.children.len() == item.children.len()
    &&& forall|i: int|
        0 <= i < item.children.len() ==> entry_of(
            #[trigger] item.children@[i],
            entry.children@[i],
            depth + 1,
        )
}

proof fn lemma_forest_height_bound(items: Seq<OutlineItem>, i: int)
    requires
        0 <= i < items.len(),
    ensures
        outline_height(items[i]) <= forest_height(items),
    decreases items.len(),
{
    if i < items.len() - 1 {
        lemma_forest_height_bound(items.drop_last(), i);
        assert(items.drop_last()[i] == items[i]);
    }
}

/// The chapter of an outline item at nesting depth `depth`, with its sub-chapters.
pub fn process_bookmark(item: &OutlineItem, depth: usize) -> (r: BookmarkEntry)
    requires
        depth + outline_height(*item) <= usize::MAX + 1,
    ensures
        entry_of(*item, r, depth as int),
    decreases item,
{
    let mut title = String::new();
    match &item.title {
        Some(t) => push_str(&mut title, t.as_str()),
        None => push_str(&mut title, "Untitled"),
    }
    let page_index = match item.page_index {
        Some(p) => p,
        None => 0,
    };
    let mut children: Vec<BookmarkEntry> = Vec::new();
    let mut i: usize = 0;
    while i < item.children.len()
        invariant
            i <= item.children.len(),
            children.len() == i,
            depth + outline_height(*item) <= usize::MAX + 1,
            forall|k: int|
                0 <= k < i ==> entry_of(
                    #[trigger] item.children@[k],
                    children@[k],
                    depth + 1,
                ),
        decreases item.children.len() - i,
    {
        proof {
            lemma_forest_height_bound(item.children@, i as int);
        }
        let child = process_bookmark(&item.children[i], depth + 1);
        children.push(child);
        i = i + 1;
    }
    BookmarkEntry { title, page_index, children, depth }
}

/// The chapters of the document from its top-level outline items, in order, at depth 0.
pub fn extract_bookmarks(roots: &Vec<OutlineItem>) -> (r: Vec<BookmarkEntry>)
    requires
        forest_height(roots@) <= usize::MAX + 1,
    ensures
        r.len() == roots.len(),
        forall|i: int| 0 <= i < roots.len() ==> entry_of(#[trigger] roots@[i], r@[i], 0),
{
    let mut r: Vec<BookmarkEntry> = Vec::new();
    let mut i: usize = 0;
    while i < roots.len()
        invariant
            i <= roots.len(),
            r.len() == i,
            forest_height(roots@) <= usize::MAX + 1,
            forall|k: int| 0 <= k < i ==> entry_of(#[trigger] roots@[k], r@[k], 0),
        decreases roots.len() - i,
    {
        proof {
            lemma_forest_height_bound(roots@, i as int);
        }
        let entry = process_bookmark(&roots[i], 0);
        r.push(entry);
        i = i + 1;
    }
    r
}

} // verus!
