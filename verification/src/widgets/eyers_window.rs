//! The reader window's decisions: how an action changes the mode, what the highlights
//! cover, what annotating, saving and editing an annotation work on, how the contents
//! panel toggles, and how a mouse drag selects words. Drawing, scrolling and the database
//! are the application's part; it carries out what these functions decide.
use vstd::prelude::*;
use vstd::string::StringSliceAdditionalSpecFns;
use vstd::utf8::{decode_utf8, encode_utf8_decode_utf8};
use crate::modes::app_mode::{
    AppMode, WordCursor, cursor_le, cursor_lt, lemma_toggle_then_move_selects,
    spec_selection_range, spec_set_cursor, spec_toggle_selection,
};
use crate::modes::key_action::{KeyAction, KeyResult};
use crate::modes::keys::{KEY_ESCAPE, KEY_S, KEY_V, KEY_Y};
use crate::modes::processing::{normal_mode_action, ready, visual_key_spec};
use crate::services::annotations::{
    Annotation, AnnotationId, annotation_to_edit, first_of, index_of_next_annotation,
    index_of_prev_annotation, is_first_containing, is_first_starting_after,
    is_last_ending_before, lemma_first_starting_after_unique, lemma_last_ending_before_unique,
    overlaps, position_in,
};
use crate::text::{decimal, push_decimal, push_str};
use crate::text_map::navigation::{find_word_on_line_starting_with, starts_with_letter};
use crate::text_map::page_text_map::PageTextMap;
use crate::text_map::selection::{
    copied_text, extract_text_range, selected_words, selection_words, valid_cursor,
    words_between, words_in_range,
};
use crate::text_map::text_map_cache::{CacheView, TextMapCache};
use crate::widgets::toc_panel::TocMode;

verus! {

/// The mode after the window carries out `action`, given the first word visible in the
/// viewport (where entering Visual mode puts the cursor), and whether the action was
/// carried out: entering Visual mode fails when no word is visible.
pub open spec fn mode_after_action(
    mode: AppMode,
    action: KeyAction,
    first_visible: Option<WordCursor>,
) -> (AppMode, bool) {
    match action {
        KeyAction::EnterVisual => match first_visible {
            Some(c) => (AppMode::Visual { cursor: c, selection_anchor: None }, true),
            None => (mode, false),
        },
        KeyAction::ExitVisual => (AppMode::Normal, true),
        KeyAction::CursorMoved { cursor } => (spec_set_cursor(mode, cursor), true),
        KeyAction::ToggleSelection => (spec_toggle_selection(mode), true),
        _ => (mode, true),
    }
}

/// Applies the part of an action that concerns the mode, as `mode_after_action` says, and
/// tells whether the action was carried out.
pub fn apply_action_to_mode(
    mode: &mut AppMode,
    action: KeyAction,
    first_visible: Option<WordCursor>,
) -> (handled: bool)
    ensures
        (*final(mode), handled) == mode_after_action(*old(mode), action, first_visible),
{
    match action {
        KeyAction::EnterVisual => match first_visible {
            Some(c) => {
                *mode = AppMode::enter_visual(c);
                true
            },
            None => false,
        },
        KeyAction::ExitVisual => {
            *mode = AppMode::exit_to_normal();
            true
        },
        KeyAction::CursorMoved { cursor } => {
            mode.set_cursor(cursor);
            true
        },
        KeyAction::ToggleSelection => {
            mode.toggle_selection();
            true
        },
        _ => true,
    }
}

/// Entering Visual mode at a visible word and leaving it again gives Normal mode back.
pub proof fn lemma_enter_then_exit_visual(mode: AppMode, c: WordCursor)
    ensures
        mode_after_action(
            mode_after_action(mode, KeyAction::EnterVisual, Some(c)).0,
            KeyAction::ExitVisual,
            Some(c),
        ) == (AppMode::Normal, true),
{
}

/// `v` enters Visual mode at the first visible word, and `v` in Visual mode goes back to
/// Normal mode.
pub proof fn lemma_v_toggles_visual(
    c: WordCursor,
    anchor: Option<WordCursor>,
    unicode: Option<char>,
    cache: CacheView,
)
    ensures
        normal_mode_action(KEY_V) == Some(KeyAction::EnterVisual),
        mode_after_action(AppMode::Normal, KeyAction::EnterVisual, Some(c)) == (
            AppMode::Visual { cursor: c, selection_anchor: None },
            true,
        ),
        visual_key_spec(
            ready(),
            KEY_V,
            unicode,
            AppMode::Visual { cursor: c, selection_anchor: anchor },
            cache,
        ) == (KeyResult::Action(KeyAction::ExitVisual), ready()),
        mode_after_action(
            AppMode::Visual { cursor: c, selection_anchor: anchor },
            KeyAction::ExitVisual,
            None,
        ) == (AppMode::Normal, true),
{
}

/// Escape in Visual mode without a selection goes back to Normal mode; with a selection it
/// asks to clear the selection's highlight and leaves the mode as it is.
pub proof fn lemma_escape_in_visual(
    c: WordCursor,
    anchor: Option<WordCursor>,
    unicode: Option<char>,
    cache: CacheView,
    first_visible: Option<WordCursor>,
)
    ensures
        anchor is None ==> visual_key_spec(
            ready(),
            KEY_ESCAPE,
            unicode,
            AppMode::Visual { cursor: c, selection_anchor: anchor },
            cache,
        ).0 == KeyResult::Action(KeyAction::ExitVisual) && mode_after_action(
            AppMode::Visual { cursor: c, selection_anchor: anchor },
            KeyAction::ExitVisual,
            first_visible,
        ).0 == AppMode::Normal,
        anchor is Some ==> visual_key_spec(
            ready(),
            KEY_ESCAPE,
            unicode,
            AppMode::Visual { cursor: c, selection_anchor: anchor },
            cache,
        ).0 == KeyResult::Action(KeyAction::ClearSelection) && mode_after_action(
            AppMode::Visual { cursor: c, selection_anchor: anchor },
            KeyAction::ClearSelection,
            first_visible,
        ).0 == (AppMode::Visual { cursor: c, selection_anchor: anchor }),
{
}

/// `s` sets the anchor at the cursor; after the cursor moves to `c2`, `y` copies the words
/// from the earlier of the two positions to the later.
pub proof fn lemma_select_then_copy(
    c: WordCursor,
    c2: WordCursor,
    unicode: Option<char>,
    cache: CacheView,
)
    ensures
        ({
            let m0 = AppMode::Visual { cursor: c, selection_anchor: None };
            let (r1, h1) = visual_key_spec(ready(), KEY_S, unicode, m0, cache);
            let m1 = mode_after_action(m0, KeyAction::ToggleSelection, None).0;
            let m2 = mode_after_action(m1, KeyAction::CursorMoved { cursor: c2 }, None).0;
            &&& r1 == KeyResult::Action(KeyAction::ToggleSelection)
            &&& h1 == ready()
            &&& visual_key_spec(ready(), KEY_Y, unicode, m2, cache).0 == KeyResult::Action(
                if cursor_le(c, c2) {
                    KeyAction::CopyToClipboard { start: c, end: c2 }
                } else {
                    KeyAction::CopyToClipboard { start: c2, end: c }
                },
            )
        }),
{
    lemma_toggle_then_move_selects(c, c2);
}

/// Where one annotation search moves the cursor: to the start of the first annotation
/// that starts after it (`forward`), or of the last one that ends before it; nowhere when
/// there is none.
pub open spec fn annotation_search_step(anns: Seq<Annotation>, c: WordCursor, forward: bool) -> Option<
    WordCursor,
> {
    if forward {
        if exists|i: int| is_first_starting_after(anns, i, c.page_index, c.word_index) {
            let i = choose|i: int| is_first_starting_after(anns, i, c.page_index, c.word_index);
            Some(WordCursor { page_index: anns[i].start_page, word_index: anns[i].start_word })
        } else {
            None
        }
    } else {
        if exists|i: int| is_last_ending_before(anns, i, c.page_index, c.word_index) {
            let i = choose|i: int| is_last_ending_before(anns, i, c.page_index, c.word_index);
            Some(WordCursor { page_index: anns[i].start_page, word_index: anns[i].start_word })
        } else {
            None
        }
    }
}

/// The cursor after `k` annotation searches from `c`; a search that finds nothing leaves
/// the cursor where it is (and so do the ones after it).
pub open spec fn annotation_search_steps(
    anns: Seq<Annotation>,
    c: WordCursor,
    forward: bool,
    k: nat,
) -> WordCursor
    decreases k,
{
    if k == 0 {
        c
    } else {
        let prev = annotation_search_steps(anns, c, forward, (k - 1) as nat);
        match annotation_search_step(anns, prev, forward) {
            Some(n) => n,
            None => prev,
        }
    }
}

proof fn lemma_search_stuck(anns: Seq<Annotation>, c: WordCursor, forward: bool, j: nat, k: nat)
    requires
        j <= k,
        annotation_search_step(anns, annotation_search_steps(anns, c, forward, j), forward) is None,
    ensures
        annotation_search_steps(anns, c, forward, k) == annotation_search_steps(anns, c, forward, j),
    decreases k - j,
{
    if k > j {
        lemma_search_stuck(anns, c, forward, j, (k - 1) as nat);
    }
}

/// One annotation search from `c`, as `annotation_search_step` says.
fn search_annotation_once(annotations: &Vec<Annotation>, c: WordCursor, forward: bool) -> (r: Option<
    WordCursor,
>)
    ensures
        r == annotation_search_step(annotations@, c, forward),
{
    if forward {
        match index_of_next_annotation(annotations, c.page_index, c.word_index) {
            Some(i) => {
                proof {
                    let k = choose|k: int|
                        is_first_starting_after(annotations@, k, c.page_index, c.word_index);
                    lemma_first_starting_after_unique(
                        annotations@,
                        i as int,
                        k,
                        c.page_index,
                        c.word_index,
                    );
                }
                Some(WordCursor::new(annotations[i].start_page, annotations[i].start_word))
            },
            None => None,
        }
    } else {
        match index_of_prev_annotation(annotations, c.page_index, c.word_index) {
            Some(i) => {
                proof {
                    let k = choose|k: int|
                        is_last_ending_before(annotations@, k, c.page_index, c.word_index);
                    lemma_last_ending_before_unique(
                        annotations@,
                        i as int,
                        k,
                        c.page_index,
                        c.word_index,
                    );
                }
                Some(WordCursor::new(annotations[i].start_page, annotations[i].start_word))
            },
            None => None,
        }
    }
}

/// The cursor after searching for the next (`forward`) or previous annotation `count`
/// times from `cursor`, stopping at the first search that finds nothing (`]a` and `[a`,
/// with a count).
pub fn search_annotations(
    annotations: &Vec<Annotation>,
    cursor: WordCursor,
    forward: bool,
    count: u32,
) -> (r: WordCursor)
    ensures
        r == annotation_search_steps(annotations@, cursor, forward, count as nat),
{
    let mut c = cursor;
    let mut k: u32 = 0;
    while k < count
        invariant
            k <= count,
            c == annotation_search_steps(annotations@, cursor, forward, k as nat),
        decreases count - k,
    {
        match search_annotation_once(annotations, c, forward) {
            Some(n) => {
                c = n;
            },
            None => {
                proof {
                    lemma_search_stuck(annotations@, cursor, forward, k as nat, count as nat);
                }
                return c;
            },
        }
        k = k + 1;
    }
    c
}

/// Word `i` is where a find for `target` from the cursor lands: on the cursor's line of a
/// cached page, the nearest word after the cursor (`forward`) or before it that starts with
/// `target`, ignoring case.
pub open spec fn is_find_target(c: CacheView, cur: WordCursor, target: char, forward: bool, i: int) -> bool {
    let m = c.pages[cur.page_index];
    let w = cur.word_index as int;
    let line = m.words@[w].line_index as int;
    let start = m.lines@[line].word_start as int;
    let end = m.lines@[line].word_end as int;
    &&& c.pages.contains_key(cur.page_index)
    &&& w < m.words@.len()
    &&& starts_with_letter(m, i, target)
    &&& forward ==> w < i < end && forall|j: int| w < j < i ==> !#[trigger] starts_with_letter(m, j, target)
    &&& !forward ==> start <= i < w && forall|j: int| i < j < w ==> !#[trigger] starts_with_letter(m, j, target)
}

/// Where one find for `target` moves the cursor, if anywhere.
pub open spec fn find_step(c: CacheView, cur: WordCursor, target: char, forward: bool) -> Option<WordCursor> {
    if exists|i: int| is_find_target(c, cur, target, forward, i) {
        Some(WordCursor { page_index: cur.page_index, word_index: (choose|i: int| is_find_target(c, cur, target, forward, i)) as usize })
    } else {
        None
    }
}

/// The cursor after `k` finds from `cur`; a find that lands nowhere leaves the cursor where
/// it is (and so do the ones after it).
pub open spec fn find_steps(c: CacheView, cur: WordCursor, target: char, forward: bool, k: nat) -> WordCursor
    decreases k,
{
    if k == 0 {
        cur
    } else {
        let prev = find_steps(c, cur, target, forward, (k - 1) as nat);
        match find_step(c, prev, target, forward) {
            Some(n) => n,
            None => prev,
        }
    }
}

proof fn lemma_find_target_unique(c: CacheView, cur: WordCursor, target: char, forward: bool, i: int, j: int)
    requires
        is_find_target(c, cur, target, forward, i),
        is_find_target(c, cur, target, forward, j),
    ensures
        i == j,
{
    let m = c.pages[cur.page_index];
    if i < j {
        assert(starts_with_letter(m, i, target));
    } else if j < i {
        assert(starts_with_letter(m, j, target));
    }
}

proof fn lemma_find_stuck(c: CacheView, cur: WordCursor, target: char, forward: bool, j: nat, k: nat)
    requires
        j <= k,
        find_step(c, find_steps(c, cur, target, forward, j), target, forward) is None,
    ensures
        find_steps(c, cur, target, forward, k) == find_steps(c, cur, target, forward, j),
    decreases k - j,
{
    if k > j {
        lemma_find_stuck(c, cur, target, forward, j, (k - 1) as nat);
    }
}

/// One find from `cur`, as `find_step` says.
fn find_once(cache: &TextMapCache, cur: WordCursor, target: char, forward: bool) -> (r: Option<WordCursor>)
    requires
        cache.wf(),
    ensures
        r == find_step(cache@, cur, target, forward),
{
    match find_word_on_line_starting_with(cache, cur.page_index, cur.word_index, target, forward) {
        Some(res) => {
            proof {
                let i = res.word_index as int;
                assert(is_find_target(cache@, cur, target, forward, i));
                let k = choose|k: int| is_find_target(cache@, cur, target, forward, k);
                lemma_find_target_unique(cache@, cur, target, forward, i, k);
            }
            Some(WordCursor::new(res.page_index, res.word_index))
        },
        None => {
            proof {
                assert forall|i: int| !is_find_target(cache@, cur, target, forward, i) by {
                    if is_find_target(cache@, cur, target, forward, i) {
                        let m = cache@.pages[cur.page_index];
                        assert(starts_with_letter(m, i, target));
                    }
                }
            }
            None
        },
    }
}

/// The cursor after finding `target` `count` times from `cursor` on its line, forward (`f`)
/// or backward (`F`), stopping at the first find that lands nowhere.
pub fn find_repeated(
    cache: &TextMapCache,
    cursor: WordCursor,
    target: char,
    forward: bool,
    count: u32,
) -> (r: WordCursor)
    requires
        cache.wf(),
    ensures
        r == find_steps(cache@, cursor, target, forward, count as nat),
{
    let mut c = cursor;
    let mut k: u32 = 0;
    while k < count
        invariant
            k <= count,
            cache.wf(),
            c == find_steps(cache@, cursor, target, forward, k as nat),
        decreases count - k,
    {
        match find_once(cache, c, target, forward) {
            Some(n) => {
                c = n;
            },
            None => {
                proof {
                    lemma_find_stuck(cache@, cursor, target, forward, k as nat, count as nat);
                }
                return c;
            },
        }
        k = k + 1;
    }
    c
}

/// What the highlights show: the word under the cursor, when it is a word of a cached page,
/// and the words of the selection.
#[derive(Debug)]
pub struct HighlightPlan {
    pub cursor: Option<WordCursor>,
    pub selection: Vec<WordCursor>,
}

/// The highlights for a cursor and a selection: the cursor's word, when the page's map is
/// cached and has that word, and the words the selection covers.
pub fn highlight_plan(
    cache: &TextMapCache,
    cursor: Option<WordCursor>,
    selection: Option<(WordCursor, WordCursor)>,
) -> (r: HighlightPlan)
    ensures
        r.cursor == (match cursor {
            Some(c) => if valid_cursor(cache@, c) {
                Some(c)
            } else {
                None
            },
            None => None,
        }),
        r.selection@ == (match selection {
            Some((a, b)) => selection_words(cache@, a, b),
            None => Seq::empty(),
        }),
{
    let cursor_word = match cursor {
        Some(c) => match cache.get(c.page_index) {
            Some(map) => if c.word_index < map.word_count() {
                Some(c)
            } else {
                None
            },
            None => None,
        },
        None => None,
    };
    let selection_words = match selection {
        Some((a, b)) => selected_words(cache, a, b),
        None => Vec::new(),
    };
    HighlightPlan { cursor: cursor_word, selection: selection_words }
}

/// The words the annotations cover, one list per annotation, in the annotations' order.
pub fn annotation_highlights(cache: &TextMapCache, annotations: &Vec<Annotation>) -> (r: Vec<
    Vec<WordCursor>,
>)
    ensures
        r.len() == annotations.len(),
        forall|i: int|
            0 <= i < r.len() ==> (#[trigger] r@[i])@ == words_between(
                cache@,
                WordCursor {
                    page_index: annotations@[i].start_page,
                    word_index: annotations@[i].start_word,
                },
                WordCursor {
                    page_index: annotations@[i].end_page,
                    word_index: annotations@[i].end_word,
                },
            ),
{
    let mut r: Vec<Vec<WordCursor>> = Vec::new();
    let mut i: usize = 0;
    while i < annotations.len()
        invariant
            i <= annotations.len(),
            r.len() == i,
            forall|k: int|
                0 <= k < i ==> (#[trigger] r@[k])@ == words_between(
                    cache@,
                    WordCursor {
                        page_index: annotations@[k].start_page,
                        word_index: annotations@[k].start_word,
                    },
                    WordCursor {
                        page_index: annotations@[k].end_page,
                        word_index: annotations@[k].end_word,
                    },
                ),
        decreases annotations.len() - i,
    {
        let ann = &annotations[i];
        let words = words_in_range(
            cache,
            WordCursor::new(ann.start_page, ann.start_word),
            WordCursor::new(ann.end_page, ann.end_word),
        );
        r.push(words);
        i = i + 1;
    }
    r
}

/// What the annotation panel is opened on: the range, its text, and the annotation being
/// edited (its id and note) or none for a new one (with an empty note).
#[derive(Debug)]
pub struct AnnotationDraft {
    pub start: WordCursor,
    pub end: WordCursor,
    pub selected_text: String,
    pub annotation_id: Option<AnnotationId>,
    pub note: String,
}

/// The draft that annotating at `cursor` opens: on the selection when there is one, else on
/// the cursor's word; with the text of that range, and the annotation that
/// `annotation_to_edit` picks, when there is one, to edit.
pub fn annotate_draft(
    annotations: Vec<Annotation>,
    cache: &TextMapCache,
    cursor: WordCursor,
    selection: Option<(WordCursor, WordCursor)>,
) -> (r: AnnotationDraft)
    ensures
        (r.start, r.end) == (match selection {
            Some(s) => s,
            None => (cursor, cursor),
        }),
        r.selected_text@ == copied_text(
            cache@,
            selection_words(cache@, r.start, r.end),
            r.start.page_index == r.end.page_index,
        ),
        selection matches Some((s, e)) ==> match first_of(
            annotations@.filter(
                |a: Annotation| overlaps(a, s.page_index, s.word_index, e.page_index, e.word_index),
            ),
        ) {
            Some(a) => r.annotation_id == Some(a.id) && r.note@ == a.note@,
            None => r.annotation_id is None && r.note@ == Seq::<char>::empty(),
        },
        selection is None ==> (r.annotation_id matches Some(id) ==> exists|i: int|
            #[trigger] is_first_containing(annotations@, i, cursor.page_index, cursor.word_index)
                && annotations@[i].id == id && r.note@ == annotations@[i].note@),
        selection is None ==> (r.annotation_id is None ==> r.note@ == Seq::<char>::empty()
            && forall|j: int|
            0 <= j < annotations.len() ==> !position_in(
                #[trigger] annotations@[j],
                cursor.page_index,
                cursor.word_index,
            )),
{
    let (start, end) = match selection {
        Some(s) => s,
        None => (cursor, cursor),
    };
    let existing = annotation_to_edit(annotations, cursor, selection);
    let selected_text = extract_text_range(cache, start, end);
    match existing {
        Some(ann) => AnnotationDraft {
            start,
            end,
            selected_text,
            annotation_id: Some(ann.id),
            note: ann.note,
        },
        None => AnnotationDraft {
            start,
            end,
            selected_text,
            annotation_id: None,
            note: String::new(),
        },
    }
}

/// The draft that editing a stored annotation opens: its range, text, id and note.
pub fn draft_from_annotation(ann: Annotation) -> (r: AnnotationDraft)
    ensures
        r.start == (WordCursor { page_index: ann.start_page, word_index: ann.start_word }),
        r.end == (WordCursor { page_index: ann.end_page, word_index: ann.end_word }),
        r.selected_text@ == ann.selected_text@,
        r.annotation_id == Some(ann.id),
        r.note@ == ann.note@,
{
    AnnotationDraft {
        start: WordCursor::new(ann.start_page, ann.start_word),
        end: WordCursor::new(ann.end_page, ann.end_word),
        selected_text: ann.selected_text,
        annotation_id: Some(ann.id),
        note: ann.note,
    }
}

/// What saving the annotation panel writes to the database.
#[derive(Debug)]
pub enum AnnotationSave {
    /// A new annotation of the PDF at `pdf_path`.
    Create {
        pdf_path: String,
        start: WordCursor,
        end: WordCursor,
        selected_text: String,
        note: String,
    },
    /// New range, text and note for the annotation `id`.
    Update { id: AnnotationId, start: WordCursor, end: WordCursor, selected_text: String, note: String },
}

/// What saving the panel's note writes: nothing without an open PDF or a pending range;
/// else an update of the annotation being edited, or a new annotation, over the pending
/// range with its current text (`selected_text`).
pub fn annotation_save(
    pdf_path: Option<String>,
    pending: Option<(WordCursor, WordCursor)>,
    annotation_id: Option<AnnotationId>,
    selected_text: String,
    note: &str,
) -> (r: Option<AnnotationSave>)
    ensures
        (pdf_path is None || pending is None) <==> r is None,
        r matches Some(AnnotationSave::Create { pdf_path: p, start, end, selected_text: t, note: n })
            ==> annotation_id is None && pdf_path == Some(p) && pending == Some((start, end)) && t@
            == selected_text@ && n@ == note@,
        r matches Some(AnnotationSave::Update { id, start, end, selected_text: t, note: n })
            ==> annotation_id == Some(id) && pdf_path is Some && pending == Some((start, end))
            && t@ == selected_text@ && n@ == note@,
        r is Some ==> (annotation_id is Some <==> r matches Some(AnnotationSave::Update { .. })),
{
    let path = match pdf_path {
        Some(p) => p,
        None => {
            return None;
        },
    };
    let (start, end) = match pending {
        Some(range) => range,
        None => {
            return None;
        },
    };
    let mut n = String::new();
    push_str(&mut n, note);
    match annotation_id {
        Some(id) => Some(AnnotationSave::Update { id, start, end, selected_text, note: n }),
        None => Some(
            AnnotationSave::Create { pdf_path: path, start, end, selected_text, note: n },
        ),
    }
}

/// The contents panel after a toggle, from whether it is visible and what it lists: a
/// visible chapter list turns into the annotation list; a visible annotation list goes
/// back to chapters and hides; a hidden panel shows (and selects the current chapter).
/// The result is (visible, mode, select the current chapter).
pub open spec fn toc_toggle(visible: bool, mode: TocMode) -> (bool, TocMode, bool) {
    if visible {
        match mode {
            TocMode::Chapters => (true, TocMode::Annotations, false),
            TocMode::Annotations => (false, TocMode::Chapters, false),
        }
    } else {
        (true, mode, true)
    }
}

/// Toggles the contents panel, as `toc_toggle` says.
pub fn toggle_toc_panel(visible: bool, mode: TocMode) -> (r: (bool, TocMode, bool))
    ensures
        r == toc_toggle(visible, mode),
{
    if visible {
        match mode {
            TocMode::Chapters => (true, TocMode::Annotations, false),
            TocMode::Annotations => (false, TocMode::Chapters, false),
        }
    } else {
        (true, mode, true)
    }
}

/// Toggling the contents panel three times from hidden goes through chapters and
/// annotations and hides it again on chapters.
pub proof fn lemma_toc_toggle_cycle(mode: TocMode)
    ensures
        toc_toggle(false, TocMode::Chapters) == (true, TocMode::Chapters, true),
        toc_toggle(true, TocMode::Chapters) == (true, TocMode::Annotations, false),
        toc_toggle(true, TocMode::Annotations) == (false, TocMode::Chapters, false),
        toc_toggle(false, mode).0,
{
}

/// The cursor on the first word of a page, when it has words.
pub fn first_word_of_page(map: &PageTextMap) -> (r: Option<WordCursor>)
    ensures
        map.words.len() == 0 ==> r is None,
        map.words.len() > 0 ==> r == Some(WordCursor { page_index: map.page_index, word_index: 0 }),
{
    if map.word_count() > 0 {
        Some(WordCursor::new(map.page_index, 0))
    } else {
        None
    }
}

/// The cursor on the last word of a page, when it has words.
pub fn last_word_of_page(map: &PageTextMap) -> (r: Option<WordCursor>)
    ensures
        map.words.len() == 0 ==> r is None,
        map.words.len() > 0 ==> r == Some(
            WordCursor { page_index: map.page_index, word_index: (map.words.len() - 1) as usize },
        ),
{
    let n = map.word_count();
    if n > 0 {
        Some(WordCursor::new(map.page_index, n - 1))
    } else {
        None
    }
}

/// The first word of the page whose characters include character `char_idx`.
pub fn word_at_char(map: &PageTextMap, char_idx: usize) -> (r: Option<usize>)
    ensures
        r matches Some(i) ==> i < map.words.len() && map.words@[i as int].char_start <= char_idx
            < map.words@[i as int].char_end && forall|j: int|
            0 <= j < i ==> !(#[trigger] map.words@[j].char_start <= char_idx
                < map.words@[j].char_end),
        r is None ==> forall|j: int|
            0 <= j < map.words.len() ==> !(#[trigger] map.words@[j].char_start <= char_idx
                < map.words@[j].char_end),
{
    let mut i: usize = 0;
    while i < map.words.len()
        invariant
            i <= map.words.len(),
            forall|j: int|
                0 <= j < i ==> !(#[trigger] map.words@[j].char_start <= char_idx
                    < map.words@[j].char_end),
        decreases map.words.len() - i,
    {
        if map.words[i].char_start <= char_idx && char_idx < map.words[i].char_end {
            return Some(i);
        }
        i = i + 1;
    }
    None
}

/// The state of a mouse drag that selects words.
#[derive(Debug, Clone, Copy, PartialEq, Eq, Structural)]
pub struct MouseSelectionState {
    pub is_dragging: bool,
    pub start_cursor: Option<WordCursor>,
    pub drag_start_page: Option<usize>,
}

impl Default for MouseSelectionState {
    fn default() -> (r: Self)
        ensures
            r == (MouseSelectionState {
                is_dragging: false,
                start_cursor: None,
                drag_start_page: None,
            }),
    {
        MouseSelectionState { is_dragging: false, start_cursor: None, drag_start_page: None }
    }
}

/// What the window shows after a drag event.
#[derive(Debug, Clone, Copy, PartialEq, Eq, Structural)]
pub enum DragEffect {
    /// Nothing changes.
    Unchanged,
    /// Back in Normal mode: no cursor, no selection.
    BackToNormal,
    /// The cursor is at this word, and the selection is redrawn.
    CursorAt(WordCursor),
}

/// A drag starts on page `page_index`, on the word `start` (none when off any word). While
/// definitions are enabled, drags do nothing. Off a word, the window goes back to Normal
/// mode; on a word, the drag starts there, in Visual mode without a selection.
pub fn handle_drag_started(
    state: &mut MouseSelectionState,
    mode: &mut AppMode,
    definitions_enabled: bool,
    start: Option<WordCursor>,
    page_index: usize,
) -> (r: DragEffect)
    ensures
        definitions_enabled ==> r == DragEffect::Unchanged && *final(state) == *old(state)
            && *final(mode) == *old(mode),
        !definitions_enabled ==> match start {
            None => r == DragEffect::BackToNormal && *final(state) == *old(state) && *final(mode)
                == AppMode::Normal,
            Some(c) => r == DragEffect::CursorAt(c) && *final(state) == (MouseSelectionState {
                is_dragging: true,
                start_cursor: Some(c),
                drag_start_page: Some(page_index),
            }) && *final(mode) == (AppMode::Visual { cursor: c, selection_anchor: None }),
        },
{
    if definitions_enabled {
        return DragEffect::Unchanged;
    }
    match start {
        None => {
            *mode = AppMode::Normal;
            DragEffect::BackToNormal
        },
        Some(c) => {
            *state = MouseSelectionState {
                is_dragging: true,
                start_cursor: Some(c),
                drag_start_page: Some(page_index),
            };
            *mode = AppMode::Visual { cursor: c, selection_anchor: None };
            DragEffect::CursorAt(c)
        },
    }
}

/// The mode while dragging from `start` to `current`: the selection runs between them,
/// with the cursor on the later one.
pub open spec fn drag_selection(start: WordCursor, current: WordCursor) -> AppMode {
    if cursor_lt(current, start) {
        AppMode::Visual { cursor: start, selection_anchor: Some(current) }
    } else {
        AppMode::Visual { cursor: current, selection_anchor: Some(start) }
    }
}

/// The mode is Visual with its cursor at `c`.
pub open spec fn cursor_is(mode: AppMode, c: WordCursor) -> bool {
    match mode {
        AppMode::Visual { cursor, .. } => cursor == c,
        AppMode::Normal => false,
    }
}

/// The pointer moves over the word `current` (none when off any word). While dragging,
/// a move onto another word than the cursor's selects from the drag's start to it.
pub fn handle_drag_motion(
    state: &MouseSelectionState,
    mode: &mut AppMode,
    definitions_enabled: bool,
    current: Option<WordCursor>,
) -> (r: DragEffect)
    ensures
        match (definitions_enabled, state.is_dragging, state.start_cursor, current) {
            (false, true, Some(s), Some(c)) => if cursor_is(*old(mode), c) {
                r == DragEffect::Unchanged && *final(mode) == *old(mode)
            } else {
                *final(mode) == drag_selection(s, c) && r == DragEffect::CursorAt(
                    if cursor_lt(c, s) {
                        s
                    } else {
                        c
                    },
                )
            },
            _ => r == DragEffect::Unchanged && *final(mode) == *old(mode),
        },
{
    if definitions_enabled || !state.is_dragging {
        return DragEffect::Unchanged;
    }
    let start = match state.start_cursor {
        Some(s) => s,
        None => {
            return DragEffect::Unchanged;
        },
    };
    let current = match current {
        Some(c) => c,
        None => {
            return DragEffect::Unchanged;
        },
    };
    if let AppMode::Visual { cursor, .. } = mode {
        if cursor.page_index == current.page_index && cursor.word_index == current.word_index {
            return DragEffect::Unchanged;
        }
    }
    let backward = current.page_index < start.page_index || (current.page_index
        == start.page_index && current.word_index < start.word_index);
    let (anchor, cursor) = if backward {
        (current, start)
    } else {
        (start, current)
    };
    *mode = AppMode::Visual { cursor, selection_anchor: Some(anchor) };
    DragEffect::CursorAt(cursor)
}

/// The drag ends. The drag state is cleared; when no selection was made (a click without
/// a drag), the window goes back to Normal mode.
pub fn handle_drag_ended(
    state: &mut MouseSelectionState,
    mode: &mut AppMode,
    definitions_enabled: bool,
) -> (r: DragEffect)
    ensures
        (definitions_enabled || !old(state).is_dragging) ==> r == DragEffect::Unchanged
            && *final(state) == *old(state) && *final(mode) == *old(mode),
        (!definitions_enabled && old(state).is_dragging) ==> *final(state) == (
        MouseSelectionState { is_dragging: false, start_cursor: None, drag_start_page: None }),
        (!definitions_enabled && old(state).is_dragging && spec_selection_range(*old(mode)) is Some)
            ==> r == DragEffect::Unchanged && *final(mode) == *old(mode),
        (!definitions_enabled && old(state).is_dragging && spec_selection_range(*old(mode)) is None)
            ==> r == DragEffect::BackToNormal && *final(mode) == AppMode::Normal,
{
    if definitions_enabled || !state.is_dragging {
        return DragEffect::Unchanged;
    }
    *state = MouseSelectionState { is_dragging: false, start_cursor: None, drag_start_page: None };
    if mode.has_selection() {
        DragEffect::Unchanged
    } else {
        *mode = AppMode::Normal;
        DragEffect::BackToNormal
    }
}

/// After a drag starts on `a` and moves onto another word `b`, the selection runs from
/// the earlier of the two to the later.
pub proof fn lemma_drag_selects_between(a: WordCursor, b: WordCursor)
    requires
        a != b,
    ensures
        spec_selection_range(drag_selection(a, b)) == if cursor_lt(b, a) {
            Some((b, a))
        } else {
            Some((a, b))
        },
{
}

/// The message shown when text is copied: the text in quotes, or, when it is longer than
/// forty bytes, its first thirty-seven bytes followed by an ellipsis.
pub fn copy_feedback_text(text: &str) -> (r: String)
    requires
        text.len() > 40 ==> text.is_char_boundary(37),
    ensures
        text.len() > 40 ==> r@ == "Copied: \""@ + decode_utf8(text.spec_bytes().subrange(0, 37))
            + "...\""@,
        text.len() <= 40 ==> r@ == "Copied: \""@ + text@ + "\""@,
{
    let mut out = String::new();
    push_str(&mut out, "Copied: \"");
    if text.len() > 40 {
        let (head, _) = text.split_at(37);
        proof {
            encode_utf8_decode_utf8(head@);
            assert(head.spec_bytes() =~= text.spec_bytes().subrange(0, 37));
        }
        push_str(&mut out, head);
        push_str(&mut out, "...\"");
    } else {
        push_str(&mut out, text);
        push_str(&mut out, "\"");
    }
    out
}

/// The file name offered for an export of the annotations of a PDF with file stem
/// `pdf_stem` ("annotations" when it has none).
pub fn export_file_name(pdf_stem: Option<&str>) -> (r: String)
    ensures
        r@ == match pdf_stem {
            Some(stem) => stem@,
            None => "annotations"@,
        } + "_annotations.md"@,
{
    let mut out = String::new();
    match pdf_stem {
        Some(stem) => push_str(&mut out, stem),
        None => push_str(&mut out, "annotations"),
    }
    push_str(&mut out, "_annotations.md");
    out
}

/// The name of a PDF in the title of its export: its file name, or "Unknown PDF".
pub fn export_pdf_name(file_name: Option<&str>) -> (r: String)
    ensures
        r@ == match file_name {
            Some(name) => name@,
            None => "Unknown PDF"@,
        },
{
    let mut out = String::new();
    match file_name {
        Some(name) => push_str(&mut out, name),
        None => push_str(&mut out, "Unknown PDF"),
    }
    out
}

/// The question asked before exporting `count` annotations.
pub fn export_prompt(count: u64) -> (r: String)
    ensures
        r@ == "Export "@ + decimal(count as nat) + " annotation(s) to a Markdown file?"@,
{
    let mut out = String::new();
    push_str(&mut out, "Export ");
    push_decimal(&mut out, count);
    push_str(&mut out, " annotation(s) to a Markdown file?");
    out
}

} // verus!
