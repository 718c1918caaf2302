use vstd::prelude::*;
use std::collections::HashMap;
use crate::text_map::page_text_map::PageTextMap;

verus! {

broadcast use vstd::std_specs::hash::group_hash_axioms;

/// The abstract value of a cache: the text maps built so far, by page index, and the
/// number of pages of the document.
pub struct CacheView {
    pub pages: Map<usize, PageTextMap>,
    pub page_count: nat,
}

/// Every cached map belongs to a page of the document, is the map of that page, and is
/// well formed.
pub open spec fn cache_wf(c: CacheView) -> bool {
    &&& c.page_count <= usize::MAX
    &&& forall|p: usize|
        #[trigger] c.pages.contains_key(p) ==> p < c.page_count && c.pages[p].page_index == p
            && c.pages[p].wf()
}

/// A lazily filled cache of the text maps of a document's pages.
#[derive(Debug)]
pub struct TextMapCache {
    maps: HashMap<usize, PageTextMap>,
    page_count: usize,
}

impl View for TextMapCache {
    type V = CacheView;

    closed spec fn view(&self) -> CacheView {
        CacheView { pages: self.maps@, page_count: self.page_count as nat }
    }
}

impl TextMapCache {
    pub open spec fn wf(&self) -> bool {
        cache_wf(self@)
    }

    /// An empty cache for a document of `page_count` pages.
    pub fn new(page_count: usize) -> (r: Self)
        ensures
            r@.pages == Map::<usize, PageTextMap>::empty(),
            r@.page_count == page_count,
            r.wf(),
    {
        TextMapCache { maps: HashMap::new(), page_count }
    }

    /// Whether the map of `page_index` must still be built before it can be read: the page
    /// exists and is not cached.
    pub fn needs_build(&self, page_index: usize) -> (r: bool)
        ensures
            r == (page_index < self@.page_count && !self@.pages.contains_key(page_index)),
    {
        page_index < self.page_count && !self.maps.contains_key(&page_index)
    }

    /// Stores the map built for its page.
    pub fn insert(&mut self, text_map: PageTextMap)
        requires
            old(self).wf(),
            text_map.page_index < old(self)@.page_count,
            text_map.wf(),
        ensures
            final(self)@.pages == old(self)@.pages.insert(text_map.page_index, text_map),
            final(self)@.page_count == old(self)@.page_count,
            final(self).wf(),
    {
        let p = text_map.page_index;
        let ghost before = self@.pages;
        self.maps.insert(p, text_map);
        assert forall|q: usize| #[trigger] self@.pages.contains_key(q) implies q < self@.page_count
            && self@.pages[q].page_index == q && self@.pages[q].wf() by {
            if q != p {
                assert(before.contains_key(q));
            }
        }
    }

    /// The cached map of `page_index`, without building it.
    pub fn get(&self, page_index: usize) -> (r: Option<&PageTextMap>)
        ensures
            self@.pages.contains_key(page_index) ==> r == Some(&self@.pages[page_index]),
            !self@.pages.contains_key(page_index) ==> r is None,
    {
        self.maps.get(&page_index)
    }

    /// Whether the map of `page_index` is cached.
    pub fn is_cached(&self, page_index: usize) -> (r: bool)
        ensures
            r == self@.pages.contains_key(page_index),
    {
        self.maps.contains_key(&page_index)
    }

    /// Drops every cached map.
    pub fn clear(&mut self)
        ensures
            final(self)@.pages == Map::<usize, PageTextMap>::empty(),
            final(self)@.page_count == old(self)@.page_count,
            final(self).wf(),
    {
        self.maps.clear();
    }

    /// The number of pages of the document.
    pub fn page_count(&self) -> (r: usize)
        ensures
            r == self@.page_count,
    {
        self.page_count
    }

    /// The pages from `start` up to `end` (excluded, and at most the page count) whose maps
    /// are not cached yet, in increasing order: those that building a range ahead of time
    /// builds.
    pub fn pages_to_build(&self, start: usize, end: usize) -> (r: Vec<usize>)
        ensures
            forall|k: int| 0 <= k < r.len() ==> start <= #[trigger] r@[k] < end && r@[k] < self@.page_count
                && !self@.pages.contains_key(r@[k]),
            forall|a: int, b: int| 0 <= a < b < r.len() ==> r@[a] < r@[b],
            forall|p: usize|
                start <= p < end && p < self@.page_count && !self@.pages.contains_key(p) ==> r@.contains(p),
    {
        let stop = if end < self.page_count {
            end
        } else {
            self.page_count
        };
        let mut r: Vec<usize> = Vec::new();
        let mut p = start;
        while p < stop
            invariant
                start <= p,
                stop <= end,
                stop <= self@.page_count,
                forall|k: int| 0 <= k < r.len() ==> start <= #[trigger] r@[k] < p && r@[k] < stop
                    && !self@.pages.contains_key(r@[k]),
                forall|a: int, b: int| 0 <= a < b < r.len() ==> r@[a] < r@[b],
                forall|q: usize| start <= q < p && q < stop && !self@.pages.contains_key(q) ==> r@.contains(q),
            decreases stop - p,
        {
            let ghost before = r@;
            if !self.is_cached(p) {
                r.push(p);
                assert(r@[r.len() - 1] == p);
            }
            assert forall|q: usize| start <= q < p + 1 && q < stop && !self@.pages.contains_key(q)
                implies r@.contains(q) by {
                if q < p {
                    assert(before.contains(q));
                    let i = choose|i: int| 0 <= i < before.len() && before[i] == q;
                    assert(r@[i] == q);
                } else {
                    assert(r@[r.len() - 1] == p);
                }
            }
            p = p + 1;
        }
        r
    }
}

} // verus!
