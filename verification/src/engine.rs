//! The state of the viewer: which page of which document is shown, the
//! annotations in memory, and the search hits that are highlighted.
//!
//! The engine owns the annotations. It gives each one an identifier of its
//! own when it takes it in, and keeps two things true of them at all times:
//! no two have the same identifier, and no two stand for the same object of
//! the document.

use crate::annotations::{AnnotationData, AnnotationView, DEFAULT_FONT_SIZE, POSITION_LIMIT};
use crate::ids::{decimal_string, decimal_text, decimal_value, lemma_decimal_value_of_text, push_decimal};
use crate::roundtrip::distinct_handles;
use crate::transform::{copy_rects, hits, in_hit_box, valid_length, Rect};
use std::collections::HashMap;
use vstd::prelude::*;
use vstd::std_specs::hash::group_hash_axioms;
use vstd::string::{StrSliceExecFns, StringExecFns};

verus! {

broadcast use group_hash_axioms;

/// The state of the viewer. Its fields are its own; `EngineView` is what
/// contracts say of it.
pub struct PdfEngine {
    filename: String,
    current_page: i32,
    total_pages: i32,
    filepath: Option<String>,
    annotations: Vec<AnnotationData>,
    highlight_rects: Vec<Rect>,
    search_results_cache: HashMap<i32, Vec<Rect>>,
    active_annotation_id: Option<String>,
    next_id: u64,
}

/// The engine as contracts see it.
pub struct EngineView {
    pub filename: Seq<char>,
    /// The page that is shown, counted from zero.
    pub current_page: i32,
    pub total_pages: i32,
    pub filepath: Option<Seq<char>>,
    pub annotations: Seq<AnnotationView>,
    /// The hits that are highlighted on the page that is shown.
    pub highlights: Seq<Rect>,
    /// The hits of the search, page by page.
    pub search_results: Map<i32, Seq<Rect>>,
    /// The annotation that is selected.
    pub active: Option<Seq<char>>,
    /// The serial number of the next identifier.
    pub next_id: u64,
}

/// The hits to highlight on a page: those that the search has for the page.
pub open spec fn hits_on_page(results: Map<i32, Seq<Rect>>, page: i32) -> Seq<Rect> {
    if results.contains_key(page) {
        results[page]
    } else {
        Seq::<Rect>::empty()
    }
}

/// The identifier is one that the engine gave out before `next`.
pub open spec fn issued(id: Seq<char>, next: u64) -> bool {
    id == decimal_text(decimal_value(id)) && decimal_value(id) < next
}

/// No two annotations of the list have the same identifier.
pub open spec fn distinct_ids(annotations: Seq<AnnotationView>) -> bool {
    forall|i: int, j: int|
        0 <= i < j < annotations.len() ==> (#[trigger] annotations[i]).id != (
        #[trigger] annotations[j]).id
}

/// The page of the document, counted from one, that annotations of the page
/// shown stand on.
pub open spec fn annotated_page(current_page: i32) -> u32 {
    (current_page + 1) as u32
}

impl EngineView {
    /// What the engine keeps true of itself.
    pub open spec fn wf(self) -> bool {
        &&& 0 <= self.total_pages
        &&& 0 <= self.current_page
        &&& self.current_page < self.total_pages || self.current_page == 0
        &&& forall|i: int|
            0 <= i < self.annotations.len() ==> (#[trigger] self.annotations[i]).valid() && issued(
                self.annotations[i].id,
                self.next_id,
            )
        &&& distinct_ids(self.annotations)
        &&& distinct_handles(self.annotations)
        &&& self.highlights == hits_on_page(self.search_results, self.current_page)
    }

    /// The annotation at `i` stands on the page shown and its box holds the
    /// point.
    pub open spec fn hit_at(self, i: int, x: int, y: int) -> bool {
        let a = self.annotations[i];
        &&& 0 <= i < self.annotations.len()
        &&& a.page == annotated_page(self.current_page)
        &&& in_hit_box(
            a.x as int,
            a.y as int,
            a.content.len() as int,
            a.effective_font_size() as int,
            x,
            y,
        )
    }

    /// The annotation at `i` is the one that a click at the point hits: of
    /// the annotations whose boxes hold the point, the one added last, which
    /// is painted on top.
    pub open spec fn top_hit(self, i: int, x: int, y: int) -> bool {
        self.hit_at(i, x, y) && forall|j: int| i < j < self.annotations.len() ==> !self.hit_at(j, x, y)
    }

    /// Where the annotation with the identifier stands in the list, if there
    /// is one.
    pub open spec fn has_id_at(self, i: int, id: Seq<char>) -> bool {
        0 <= i < self.annotations.len() && self.annotations[i].id == id
    }

    /// There is an annotation with the identifier.
    pub open spec fn has_id(self, id: Seq<char>) -> bool {
        exists|i: int| self.has_id_at(i, id)
    }
}

/// The views of the hit lists of a search.
pub open spec fn results_view(results: Map<i32, Vec<Rect>>) -> Map<i32, Seq<Rect>> {
    Map::new(|page: i32| results.contains_key(page), |page: i32| results[page]@)
}

/// The view of an optional text.
pub open spec fn text_view(text: Option<String>) -> Option<Seq<char>> {
    match text {
        Some(t) => Some(t@),
        None => None,
    }
}

impl PdfEngine {
    /// The engine as contracts see it.
    pub closed spec fn view(&self) -> EngineView {
        EngineView {
            filename: self.filename@,
            current_page: self.current_page,
            total_pages: self.total_pages,
            filepath: text_view(self.filepath),
            annotations: crate::annotations::views(self.annotations@),
            highlights: self.highlight_rects@,
            search_results: results_view(self.search_results_cache@),
            active: text_view(self.active_annotation_id),
            next_id: self.next_id,
        }
    }

    /// An engine without a document.
    pub fn new() -> (r: Self)
        ensures
            r@.wf(),
            r@.total_pages == 0,
            r@.current_page == 0,
            r@.filename.len() == 0,
            r@.filepath is None,
            r@.annotations.len() == 0,
            r@.highlights.len() == 0,
            r@.search_results == Map::<i32, Seq<Rect>>::empty(),
            r@.active is None,
            r@.next_id == 0,
    {
        let r = PdfEngine {
            filename: String::new(),
            current_page: 0,
            total_pages: 0,
            filepath: None,
            annotations: Vec::new(),
            highlight_rects: Vec::new(),
            search_results_cache: HashMap::new(),
            active_annotation_id: None,
            next_id: 0,
        };
        assert(r@.search_results =~= Map::<i32, Seq<Rect>>::empty());
        r
    }

    /// Takes in a document that was opened: its path, its file name and the
    /// number of its pages (a negative number counts as none). The first page
    /// is shown; the annotations, the selection and the search hits of the
    /// document before are gone.
    pub fn load_file(&mut self, path: String, name: String, total_pages: i32)
        requires
            old(self)@.wf(),
        ensures
            final(self)@.wf(),
            final(self)@ == (EngineView {
                filename: name@,
                current_page: 0,
                total_pages: if total_pages < 0 {
                    0
                } else {
                    total_pages
                },
                filepath: Some(path@),
                annotations: Seq::<AnnotationView>::empty(),
                highlights: Seq::<Rect>::empty(),
                search_results: Map::<i32, Seq<Rect>>::empty(),
                active: None,
                next_id: 0,
            }),
    {
        self.total_pages = if total_pages < 0 {
            0
        } else {
            total_pages
        };
        self.filename = name;
        self.current_page = 0;
        self.filepath = Some(path);
        self.annotations = Vec::new();
        self.highlight_rects = Vec::new();
        self.search_results_cache = HashMap::new();
        self.active_annotation_id = None;
        self.next_id = 0;
        proof {
            assert(self@.search_results =~= Map::<i32, Seq<Rect>>::empty());
            assert(self@.annotations =~= Seq::<AnnotationView>::empty());
        }
    }

    /// Shows the hits of the page that is shown.
    fn update_highlights_for_current_page(&mut self)
        ensures
            final(self)@ == (EngineView {
                highlights: hits_on_page(old(self)@.search_results, old(self)@.current_page),
                ..old(self)@
            }),
    {
        let found = match self.search_results_cache.get(&self.current_page) {
            Some(rects) => copy_rects(rects),
            None => Vec::new(),
        };
        self.highlight_rects = found;
    }

    /// Shows the page with the given index, if the document has it. Tells
    /// whether it has.
    pub fn jump_to_page(&mut self, page_index: i32) -> (r: bool)
        requires
            old(self)@.wf(),
        ensures
            final(self)@.wf(),
            r == (0 <= page_index < old(self)@.total_pages),
            r ==> final(self)@ == (EngineView {
                current_page: page_index,
                highlights: hits_on_page(old(self)@.search_results, page_index),
                ..old(self)@
            }),
            !r ==> final(self)@ == old(self)@,
    {
        if page_index >= 0 && page_index < self.total_pages {
            self.current_page = page_index;
            self.update_highlights_for_current_page();
            return true;
        }
        false
    }

    /// Shows the next page, if there is one. Tells whether there is.
    pub fn next_page(&mut self) -> (r: bool)
        requires
            old(self)@.wf(),
        ensures
            final(self)@.wf(),
            r == (old(self)@.current_page + 1 < old(self)@.total_pages),
            r ==> final(self)@ == (EngineView {
                current_page: (old(self)@.current_page + 1) as i32,
                highlights: hits_on_page(
                    old(self)@.search_results,
                    (old(self)@.current_page + 1) as i32,
                ),
                ..old(self)@
            }),
            !r ==> final(self)@ == old(self)@,
    {
        if self.current_page < self.total_pages - 1 {
            let next = self.current_page + 1;
            self.jump_to_page(next);
            return true;
        }
        false
    }

    /// Shows the page before, if there is one. Tells whether there is.
    pub fn prev_page(&mut self) -> (r: bool)
        requires
            old(self)@.wf(),
        ensures
            final(self)@.wf(),
            r == (old(self)@.current_page > 0),
            r ==> final(self)@ == (EngineView {
                current_page: (old(self)@.current_page - 1) as i32,
                highlights: hits_on_page(
                    old(self)@.search_results,
                    (old(self)@.current_page - 1) as i32,
                ),
                ..old(self)@
            }),
            !r ==> final(self)@ == old(self)@,
    {
        if self.current_page > 0 {
            let prev = self.current_page - 1;
            self.jump_to_page(prev);
            return true;
        }
        false
    }

    /// The text of the status line: the name of the file, or a blank while
    /// there is no document.
    pub fn status_text(&self) -> (r: String)
        ensures
            r@ == if self@.total_pages > 0 {
                self@.filename
            } else {
                " "@
            },
    {
        if self.total_pages > 0 {
            self.filename.clone()
        } else {
            String::from_str(" ")
        }
    }

    /// The text of the page counter: the number of the page shown, counted
    /// from one, and the number of pages; a dash while there is no document.
    pub fn page_info(&self) -> (r: String)
        requires
            self@.wf(),
        ensures
            r@ == if self@.total_pages > 0 {
                decimal_text((self@.current_page + 1) as nat) + " / "@ + decimal_text(
                    self@.total_pages as nat,
                )
            } else {
                " - "@
            },
    {
        if self.total_pages > 0 {
            let mut out = String::new();
            push_decimal(&mut out, (self.current_page + 1) as u64);
            out.append(" / ");
            push_decimal(&mut out, self.total_pages as u64);
            assert(out@ =~= decimal_text((self@.current_page + 1) as nat) + " / "@ + decimal_text(
                self@.total_pages as nat,
            ));
            out
        } else {
            String::from_str(" - ")
        }
    }

    /// The number of pages of the document.
    pub fn get_total_pages(&self) -> (r: i32)
        ensures
            r == self@.total_pages,
    {
        self.total_pages
    }

    /// The page that is shown, counted from zero.
    pub fn get_current_page_number(&self) -> (r: i32)
        ensures
            r == self@.current_page,
    {
        self.current_page
    }

    /// The path of the document, if one is open.
    pub fn get_filepath(&self) -> (r: Option<String>)
        ensures
            text_view(r) == self@.filepath,
    {
        match &self.filepath {
            Some(path) => Some(path.clone()),
            None => None,
        }
    }

    /// The annotations in memory.
    pub fn annotations(&self) -> (r: &Vec<AnnotationData>)
        ensures
            crate::annotations::views(r@) == self@.annotations,
    {
        &self.annotations
    }

    /// The hits that are highlighted on the page shown.
    pub fn highlight_rects(&self) -> (r: &Vec<Rect>)
        ensures
            r@ == self@.highlights,
    {
        &self.highlight_rects
    }

    /// The identifier of the annotation that is selected.
    pub fn active_annotation_id(&self) -> (r: &Option<String>)
        ensures
            text_view(*r) == self@.active,
    {
        &self.active_annotation_id
    }

    /// Selects an annotation, or none.
    pub fn select_annotation(&mut self, id: Option<String>)
        requires
            old(self)@.wf(),
        ensures
            final(self)@ == (EngineView { active: text_view(id), ..old(self)@ }),
            final(self)@.wf(),
    {
        self.active_annotation_id = id;
    }

    /// Takes the hits of a search, page by page, and highlights those of the
    /// page shown.
    pub fn set_all_search_results(&mut self, results: HashMap<i32, Vec<Rect>>)
        requires
            old(self)@.wf(),
        ensures
            final(self)@.wf(),
            final(self)@ == (EngineView {
                search_results: results_view(results@),
                highlights: hits_on_page(results_view(results@), old(self)@.current_page),
                ..old(self)@
            }),
    {
        self.search_results_cache = results;
        self.update_highlights_for_current_page();
    }

    /// Forgets the hits of the search; nothing is highlighted.
    pub fn clear_search_results(&mut self)
        requires
            old(self)@.wf(),
        ensures
            final(self)@.wf(),
            final(self)@ == (EngineView {
                search_results: Map::<i32, Seq<Rect>>::empty(),
                highlights: Seq::<Rect>::empty(),
                ..old(self)@
            }),
    {
        self.search_results_cache.clear();
        self.highlight_rects.clear();
        proof {
            assert(self@.search_results =~= Map::<i32, Seq<Rect>>::empty());
        }
    }

    /// Where the annotation with the identifier stands in the list.
    fn position_of(&self, id: &String) -> (r: Option<usize>)
        ensures
            match r {
                Some(i) => self@.has_id_at(i as int, id@),
                None => !self@.has_id(id@),
            },
    {
        let mut i: usize = 0;
        while i < self.annotations.len()
            invariant
                0 <= i <= self.annotations@.len(),
                forall|k: int| 0 <= k < i ==> !self@.has_id_at(k, id@),
            decreases self.annotations.len() - i,
        {
            if self.annotations[i].id == *id {
                return Some(i);
            }
            i = i + 1;
        }
        None
    }

    /// Takes in the annotations of a document in place of those in memory.
    /// Each gets a new identifier, counted from zero in the order of the list.
    /// An annotation is left out where its position or font size is out of
    /// range, or where an annotation before it in the list already stands
    /// for the same object of the document.
    pub fn set_annotations(&mut self, annots: Vec<AnnotationData>)
        requires
            old(self)@.wf(),
        ensures
            final(self)@.wf(),
            final(self)@ == (EngineView {
                annotations: adopted(crate::annotations::views(annots@)),
                next_id: adopted(crate::annotations::views(annots@)).len() as u64,
                ..old(self)@
            }),
    {
        let ghost all = crate::annotations::views(annots@);
        let mut kept: Vec<AnnotationData> = Vec::new();
        let mut i: usize = 0;
        proof {
            assert(all.subrange(0, 0) =~= Seq::<AnnotationView>::empty());
            assert(crate::annotations::views(kept@) =~= Seq::<AnnotationView>::empty());
        }
        while i < annots.len()
            invariant
                0 <= i <= annots@.len(),
                all == crate::annotations::views(annots@),
                crate::annotations::views(kept@) == adopted(all.subrange(0, i as int)),
                kept@.len() <= i,
            decreases annots.len() - i,
        {
            let a = &annots[i];
            let ghost before = crate::annotations::views(kept@);
            proof {
                assert(all.subrange(0, i + 1).drop_last() =~= all.subrange(0, i as int));
                assert(all.subrange(0, i + 1).last() == a@);
            }
            let mut fresh = a.is_valid();
            if fresh {
                if let Some(handle) = a.object_id {
                    let mut k: usize = 0;
                    while k < kept.len()
                        invariant
                            0 <= k <= kept@.len(),
                            before == crate::annotations::views(kept@),
                            fresh == (forall|m: int|
                                0 <= m < k ==> (#[trigger] before[m]).object_id != Some(handle)),
                        decreases kept.len() - k,
                    {
                        if kept[k].object_id == Some(handle) {
                            fresh = false;
                            assert(before[k as int].object_id == Some(handle));
                        }
                        k = k + 1;
                    }
                }
            }
            if fresh {
                let copy = AnnotationData {
                    page: a.page,
                    x: a.x,
                    y: a.y,
                    content: a.content.clone(),
                    font_size: a.font_size,
                    id: decimal_string(kept.len() as u64),
                    object_id: a.object_id,
                };
                kept.push(copy);
                proof {
                    assert(crate::annotations::views(kept@) =~= before.push(copy@));
                }
            }
            i = i + 1;
        }
        proof {
            assert(all.subrange(0, annots@.len() as int) =~= all);
            lemma_adopted_wf(all);
            assert forall|k: int| 0 <= k < adopted(all).len() implies issued(
                (#[trigger] adopted(all)[k]).id,
                adopted(all).len() as u64,
            ) by {
                lemma_decimal_value_of_text(k as nat);
            }
        }
        self.next_id = kept.len() as u64;
        self.annotations = kept;
    }

    /// Adds an annotation to the page shown, at a point of the sheet, with
    /// the default font size, a new identifier and no object in the document.
    ///
    /// Fails, and changes nothing, exactly where the point is out of range
    /// or no identifier is left.
    pub fn add_annotation(&mut self, text: &str, x: i64, y: i64) -> (r: Result<(), String>)
        requires
            old(self)@.wf(),
        ensures
            final(self)@.wf(),
            r is Ok == (valid_length(x) && valid_length(y) && old(self)@.next_id < u64::MAX),
            r is Ok ==> final(self)@ == (EngineView {
                annotations: old(self)@.annotations.push(
                    AnnotationView {
                        page: annotated_page(old(self)@.current_page),
                        x,
                        y,
                        content: text@,
                        font_size: Some(DEFAULT_FONT_SIZE),
                        id: decimal_text(old(self)@.next_id as nat),
                        object_id: None,
                    },
                ),
                next_id: (old(self)@.next_id + 1) as u64,
                ..old(self)@
            }),
            r is Err ==> final(self)@ == old(self)@,
    {
        if x < -POSITION_LIMIT || x > POSITION_LIMIT || y < -POSITION_LIMIT || y > POSITION_LIMIT {
            return Err(String::from_str("the position is out of range"));
        }
        if self.next_id == u64::MAX {
            return Err(String::from_str("no identifier is left"));
        }
        let ghost before = self@;
        let added = AnnotationData {
            page: (self.current_page + 1) as u32,
            x,
            y,
            content: String::from_str(text),
            font_size: Some(DEFAULT_FONT_SIZE),
            id: decimal_string(self.next_id),
            object_id: None,
        };
        self.annotations.push(added);
        self.next_id = self.next_id + 1;
        proof {
            assert(self@.annotations =~= before.annotations.push(added@));
            lemma_decimal_value_of_text(before.next_id as nat);
            assert forall|i: int, j: int| 0 <= i < j < self@.annotations.len() implies (
            #[trigger] self@.annotations[i]).id != (#[trigger] self@.annotations[j]).id by {
                if j == before.annotations.len() {
                    assert(self@.annotations[i] == before.annotations[i]);
                    assert(issued(before.annotations[i].id, before.next_id));
                } else {
                    assert(self@.annotations[i] == before.annotations[i]);
                    assert(self@.annotations[j] == before.annotations[j]);
                }
            }
            assert forall|i: int, j: int|
                0 <= i < j < self@.annotations.len() && (
                #[trigger] self@.annotations[i]).object_id is Some implies self@.annotations[i].object_id
                != (#[trigger] self@.annotations[j]).object_id by {
                assert(self@.annotations[i] == before.annotations[i]);
                if j < before.annotations.len() {
                    assert(self@.annotations[j] == before.annotations[j]);
                }
            }
            assert forall|i: int| 0 <= i < self@.annotations.len() implies (
            #[trigger] self@.annotations[i]).valid() && issued(
                self@.annotations[i].id,
                self@.next_id,
            ) by {
                if i < before.annotations.len() {
                    assert(self@.annotations[i] == before.annotations[i]);
                    assert(issued(before.annotations[i].id, before.next_id));
                }
            }
        }
        Ok(())
    }

    /// The annotation that a click at a point of the sheet hits, by its
    /// identifier: of the annotations of the page shown whose boxes hold the
    /// point, the one added last.
    pub fn hit_test_annotation(&self, x: i64, y: i64) -> (r: Option<String>)
        requires
            self@.wf(),
        ensures
            match r {
                Some(id) => exists|i: int|
                    self@.top_hit(i, x as int, y as int) && id@ == (#[trigger] self@.annotations[i]).id,
                None => forall|i: int| !self@.hit_at(i, x as int, y as int),
            },
    {
        let page = (self.current_page + 1) as u32;
        let mut i: usize = self.annotations.len();
        while i > 0
            invariant
                0 <= i <= self.annotations@.len(),
                self@.wf(),
                page == annotated_page(self@.current_page),
                forall|j: int| i <= j < self.annotations@.len() ==> !self@.hit_at(j, x as int, y as int),
            decreases i,
        {
            i = i - 1;
            let a = &self.annotations[i];
            assert(self@.annotations[i as int] == a@);
            let size = match a.font_size {
                Some(size) => size,
                None => DEFAULT_FONT_SIZE,
            };
            if a.page == page && hits(a.x, a.y, a.content.as_str().unicode_len(), size, x, y) {
                assert(self@.top_hit(i as int, x as int, y as int));
                return Some(a.id.clone());
            }
        }
        None
    }

    /// Moves the annotation with the identifier to a point of the sheet.
    /// Tells whether it did: there is such an annotation and the point is
    /// within range. Nothing changes otherwise.
    pub fn move_annotation(&mut self, id: &str, x: i64, y: i64) -> (r: bool)
        requires
            old(self)@.wf(),
        ensures
            final(self)@.wf(),
            r == (old(self)@.has_id(id@) && valid_length(x) && valid_length(y)),
            r ==> exists|i: int|
                old(self)@.has_id_at(i, id@) && final(self)@ == (EngineView {
                    annotations: old(self)@.annotations.update(
                        i,
                        AnnotationView { x, y, ..old(self)@.annotations[i] },
                    ),
                    ..old(self)@
                }),
            !r ==> final(self)@ == old(self)@,
    {
        let wanted = String::from_str(id);
        let at = match self.position_of(&wanted) {
            Some(at) => at,
            None => { return false; },
        };
        if x < -POSITION_LIMIT || x > POSITION_LIMIT || y < -POSITION_LIMIT || y > POSITION_LIMIT {
            return false;
        }
        let ghost before = self@;
        let a = &self.annotations[at];
        let moved = AnnotationData {
            page: a.page,
            x,
            y,
            content: a.content.clone(),
            font_size: a.font_size,
            id: a.id.clone(),
            object_id: a.object_id,
        };
        self.annotations.set(at, moved);
        proof {
            let changed = AnnotationView { x, y, ..before.annotations[at as int] };
            assert(moved@ == changed);
            assert(self@.annotations =~= before.annotations.update(at as int, changed));
            lemma_update_keeps_wf(before, at as int, changed);
        }
        true
    }

    /// Gives the annotation with the identifier a new content. Tells whether
    /// there is such an annotation. Nothing changes otherwise.
    pub fn update_annotation_content(&mut self, id: &str, text: &str) -> (r: bool)
        requires
            old(self)@.wf(),
        ensures
            final(self)@.wf(),
            r == old(self)@.has_id(id@),
            r ==> exists|i: int|
                old(self)@.has_id_at(i, id@) && final(self)@ == (EngineView {
                    annotations: old(self)@.annotations.update(
                        i,
                        AnnotationView { content: text@, ..old(self)@.annotations[i] },
                    ),
                    ..old(self)@
                }),
            !r ==> final(self)@ == old(self)@,
    {
        let wanted = String::from_str(id);
        let at = match self.position_of(&wanted) {
            Some(at) => at,
            None => { return false; },
        };
        let ghost before = self@;
        let a = &self.annotations[at];
        let edited = AnnotationData {
            page: a.page,
            x: a.x,
            y: a.y,
            content: String::from_str(text),
            font_size: a.font_size,
            id: a.id.clone(),
            object_id: a.object_id,
        };
        self.annotations.set(at, edited);
        proof {
            let changed = AnnotationView { content: text@, ..before.annotations[at as int] };
            assert(edited@ == changed);
            assert(self@.annotations =~= before.annotations.update(at as int, changed));
            lemma_update_keeps_wf(before, at as int, changed);
        }
        true
    }

    /// Gives the annotation that is selected a new content. Tells whether an
    /// annotation is selected and is there. Nothing changes otherwise.
    pub fn update_active_annotation_content(&mut self, text: &str) -> (r: bool)
        requires
            old(self)@.wf(),
        ensures
            final(self)@.wf(),
            r == (old(self)@.active matches Some(id) && old(self)@.has_id(id)),
            r ==> exists|i: int|
                old(self)@.has_id_at(i, old(self)@.active.unwrap()) && final(self)@ == (EngineView {
                    annotations: old(self)@.annotations.update(
                        i,
                        AnnotationView { content: text@, ..old(self)@.annotations[i] },
                    ),
                    ..old(self)@
                }),
            !r ==> final(self)@ == old(self)@,
    {
        let id = match &self.active_annotation_id {
            Some(id) => id.clone(),
            None => { return false; },
        };
        self.update_annotation_content(id.as_str(), text)
    }

    /// Takes the annotation with the identifier out of memory. Tells whether
    /// there was one. The document is not touched: what the annotation stood
    /// for goes from the document when the annotations are next written.
    pub fn delete_annotation(&mut self, id: &str) -> (r: bool)
        requires
            old(self)@.wf(),
        ensures
            final(self)@.wf(),
            r == old(self)@.has_id(id@),
            r ==> exists|i: int|
                old(self)@.has_id_at(i, id@) && final(self)@ == (EngineView {
                    annotations: old(self)@.annotations.remove(i),
                    ..old(self)@
                }),
            r ==> !final(self)@.has_id(id@),
            !r ==> final(self)@ == old(self)@,
    {
        let wanted = String::from_str(id);
        let at = match self.position_of(&wanted) {
            Some(at) => at,
            None => { return false; },
        };
        let ghost before = self@;
        self.annotations.remove(at);
        proof {
            let after = before.annotations.remove(at as int);
            assert(self@.annotations =~= after);
            lemma_remove_keeps_wf(before, at as int);
            assert forall|k: int| !self@.has_id_at(k, id@) by {
                if self@.has_id_at(k, id@) {
                    if k < at {
                        assert(after[k] == before.annotations[k]);
                        assert(before.annotations[k].id != before.annotations[at as int].id);
                    } else {
                        assert(after[k] == before.annotations[k + 1]);
                        assert(before.annotations[at as int].id != before.annotations[k + 1].id);
                    }
                }
            }
        }
        true
    }

    /// Takes the text that was entered for an annotation: for the annotation
    /// with the identifier `target`, which is then the selected one, or,
    /// without a target, for a new annotation at a point of the sheet. An
    /// empty text changes nothing. Tells whether an annotation was changed
    /// or added.
    pub fn submit_annotation_text(&mut self, target: Option<&str>, text: &str, x: i64, y: i64) -> (r:
        bool)
        requires
            old(self)@.wf(),
        ensures
            final(self)@.wf(),
            text@.len() == 0 ==> !r && final(self)@ == old(self)@,
            text@.len() > 0 && target is Some ==> r == old(self)@.has_id(target.unwrap()@) && (r
                ==> exists|i: int|
                old(self)@.has_id_at(i, target.unwrap()@) && final(self)@ == (EngineView {
                    active: Some(target.unwrap()@),
                    annotations: old(self)@.annotations.update(
                        i,
                        AnnotationView { content: text@, ..old(self)@.annotations[i] },
                    ),
                    ..old(self)@
                })) && (!r ==> final(self)@ == (EngineView {
                active: Some(target.unwrap()@),
                ..old(self)@
            })),
            text@.len() > 0 && target is None ==> r == (valid_length(x) && valid_length(y) && old(
                self,
            )@.next_id < u64::MAX) && (r ==> final(self)@ == (EngineView {
                annotations: old(self)@.annotations.push(
                    AnnotationView {
                        page: annotated_page(old(self)@.current_page),
                        x,
                        y,
                        content: text@,
                        font_size: Some(DEFAULT_FONT_SIZE),
                        id: decimal_text(old(self)@.next_id as nat),
                        object_id: None,
                    },
                ),
                next_id: (old(self)@.next_id + 1) as u64,
                ..old(self)@
            })) && (!r ==> final(self)@ == old(self)@),
    {
        if text.is_empty() {
            return false;
        }
        match target {
            Some(id) => {
                self.select_annotation(Some(String::from_str(id)));
                let ghost mid = self@;
                let done = self.update_annotation_content(id, text);
                proof {
                    if done {
                        let i = choose|i: int|
                            mid.has_id_at(i, id@) && self@ == (EngineView {
                                annotations: mid.annotations.update(
                                    i,
                                    AnnotationView { content: text@, ..mid.annotations[i] },
                                ),
                                ..mid
                            });
                        assert(old(self)@.has_id_at(i, id@));
                    } else {
                        assert forall|i: int| !old(self)@.has_id_at(i, id@) by {
                            assert(!mid.has_id_at(i, id@));
                        }
                    }
                }
                done
            },
            None => self.add_annotation(text, x, y).is_ok(),
        }
    }

    /// The places in the list of the annotations that stand on the page
    /// shown, in rising order: these are to be painted, the later over the
    /// earlier.
    pub fn shown_annotations(&self) -> (r: Vec<usize>)
        requires
            self@.wf(),
        ensures
            forall|k: int|
                0 <= k < r@.len() ==> (#[trigger] r@[k]) < self@.annotations.len()
                    && self@.annotations[r@[k] as int].page == annotated_page(self@.current_page),
            forall|k: int, m: int| 0 <= k < m < r@.len() ==> r@[k] < r@[m],
            forall|i: int|
                0 <= i < self@.annotations.len() && (#[trigger] self@.annotations[i]).page
                    == annotated_page(self@.current_page) ==> r@.contains(i as usize),
    {
        let page = (self.current_page + 1) as u32;
        let mut out: Vec<usize> = Vec::new();
        let mut i: usize = 0;
        while i < self.annotations.len()
            invariant
                0 <= i <= self.annotations@.len(),
                page == annotated_page(self@.current_page),
                forall|k: int|
                    0 <= k < out@.len() ==> (#[trigger] out@[k]) < i && self@.annotations[out@[k] as int].page
                        == page,
                forall|k: int, m: int| 0 <= k < m < out@.len() ==> out@[k] < out@[m],
                forall|j: int|
                    0 <= j < i && (#[trigger] self@.annotations[j]).page == page ==> out@.contains(
                        j as usize,
                    ),
            decreases self.annotations.len() - i,
        {
            assert(self@.annotations[i as int] == self.annotations@[i as int]@);
            if self.annotations[i].page == page {
                let ghost before = out@;
                out.push(i);
                proof {
                    assert(out@[before.len() as int] == i);
                    assert forall|j: int|
                        0 <= j < i + 1 && (#[trigger] self@.annotations[j]).page
                            == page implies out@.contains(j as usize) by {
                        if j < i {
                            let k = choose|k: int| 0 <= k < before.len() && before[k] == j as usize;
                            assert(out@[k] == j as usize);
                        }
                    }
                }
            }
            i = i + 1;
        }
        out
    }
}

/// The annotation may join those that were kept: it is within range, and
/// none of them stands for the same object of the document.
pub open spec fn adoptable(kept: Seq<AnnotationView>, a: AnnotationView) -> bool {
    a.valid() && (a.object_id is Some ==> forall|m: int|
        0 <= m < kept.len() ==> (#[trigger] kept[m]).object_id != a.object_id)
}

/// The annotations that the engine keeps of a list, each with its new
/// identifier.
pub open spec fn adopted(list: Seq<AnnotationView>) -> Seq<AnnotationView>
    decreases list.len(),
{
    if list.len() == 0 {
        Seq::<AnnotationView>::empty()
    } else {
        let kept = adopted(list.drop_last());
        if adoptable(kept, list.last()) {
            kept.push(
                AnnotationView { id: decimal_text(kept.len()), ..list.last() },
            )
        } else {
            kept
        }
    }
}

/// What the engine keeps of a list is what it keeps true of its annotations.
pub proof fn lemma_adopted_wf(list: Seq<AnnotationView>)
    ensures
        adopted(list).len() <= list.len(),
        forall|i: int|
            0 <= i < adopted(list).len() ==> (#[trigger] adopted(list)[i]).valid() && adopted(
                list,
            )[i].id == decimal_text(i as nat),
        distinct_ids(adopted(list)),
        distinct_handles(adopted(list)),
    decreases list.len(),
{
    if list.len() > 0 {
        lemma_adopted_wf(list.drop_last());
        let kept = adopted(list.drop_last());
        let all = adopted(list);
        if adoptable(kept, list.last()) {
            assert forall|i: int| 0 <= i < all.len() implies (#[trigger] all[i]).valid() && all[i].id
                == decimal_text(i as nat) by {
                if i < kept.len() {
                    assert(all[i] == kept[i]);
                }
            }
            assert forall|i: int, j: int| 0 <= i < j < all.len() implies (#[trigger] all[i]).id != (
            #[trigger] all[j]).id by {
                crate::ids::lemma_decimal_text_distinct(i as nat, j as nat);
            }
            assert forall|i: int, j: int|
                0 <= i < j < all.len() && (#[trigger] all[i]).object_id is Some implies all[i].object_id
                != (#[trigger] all[j]).object_id by {
                assert(all[i] == kept[i]);
                if j < kept.len() {
                    assert(all[j] == kept[j]);
                }
            }
        }
    }
}

/// Changing position or content of one annotation keeps what the engine
/// keeps true.
proof fn lemma_update_keeps_wf(before: EngineView, at: int, changed: AnnotationView)
    requires
        before.wf(),
        0 <= at < before.annotations.len(),
        changed.valid(),
        changed.id == before.annotations[at].id,
        changed.object_id == before.annotations[at].object_id,
    ensures
        (EngineView { annotations: before.annotations.update(at, changed), ..before }).wf(),
{
    let after = before.annotations.update(at, changed);
    assert forall|i: int, j: int| 0 <= i < j < after.len() implies (#[trigger] after[i]).id != (
    #[trigger] after[j]).id by {
        assert(after[i].id == before.annotations[i].id);
        assert(after[j].id == before.annotations[j].id);
    }
    assert forall|i: int, j: int|
        0 <= i < j < after.len() && (#[trigger] after[i]).object_id is Some implies after[i].object_id
        != (#[trigger] after[j]).object_id by {
        assert(after[i].object_id == before.annotations[i].object_id);
        assert(after[j].object_id == before.annotations[j].object_id);
    }
    assert forall|i: int| 0 <= i < after.len() implies (#[trigger] after[i]).valid() && issued(
        after[i].id,
        before.next_id,
    ) by {
        assert(after[i].id == before.annotations[i].id);
        assert(issued(before.annotations[i].id, before.next_id));
        if i != at {
            assert(after[i] == before.annotations[i]);
        }
    }
}

/// Taking one annotation out keeps what the engine keeps true.
proof fn lemma_remove_keeps_wf(before: EngineView, at: int)
    requires
        before.wf(),
        0 <= at < before.annotations.len(),
    ensures
        (EngineView { annotations: before.annotations.remove(at), ..before }).wf(),
{
    let after = before.annotations.remove(at);
    assert forall|i: int| 0 <= i < after.len() implies #[trigger] after[i] == before.annotations[if i
        < at {
        i
    } else {
        i + 1
    }] by {}
    assert forall|i: int, j: int| 0 <= i < j < after.len() implies (#[trigger] after[i]).id != (
    #[trigger] after[j]).id by {
        let i0 = if i < at { i } else { i + 1 };
        let j0 = if j < at { j } else { j + 1 };
        assert(after[i] == before.annotations[i0]);
        assert(after[j] == before.annotations[j0]);
    }
    assert forall|i: int, j: int|
        0 <= i < j < after.len() && (#[trigger] after[i]).object_id is Some implies after[i].object_id
        != (#[trigger] after[j]).object_id by {
        let i0 = if i < at { i } else { i + 1 };
        let j0 = if j < at { j } else { j + 1 };
        assert(after[i] == before.annotations[i0]);
        assert(after[j] == before.annotations[j0]);
    }
    assert forall|i: int| 0 <= i < after.len() implies (#[trigger] after[i]).valid() && issued(
        after[i].id,
        before.next_id,
    ) by {
        let i0 = if i < at { i } else { i + 1 };
        assert(after[i] == before.annotations[i0]);
        assert(issued(before.annotations[i0].id, before.next_id));
    }
}

} // verus!
