//! Free-text annotations, and reading them out of a document.
//!
//! An annotation lives in memory with its position measured from the top left
//! corner of its page. In the document its rectangle is measured from the
//! bottom left corner; the page's height turns one into the other.

use crate::pdf::{
    as_array, as_dictionary, as_integer, as_name, as_real_text, as_reference, as_text,
    decode_lossy, dict_entries, dict_get, doc_objects, doc_pages, error_text, lookup,
    lossy_text, node_of, nodes_of, page_list, parse_document, reads_as, resolve, Node,
};
use crate::ids::{decimal_string, decimal_text};
use crate::style::{font_size_of, parse_font_size_from_da};
use crate::units::{decimal_millis, in_range, parse_decimal, COORD_LIMIT, UNIT_LIMIT};
use vstd::prelude::*;
use vstd::string::{StrSliceExecFns, StringSliceAdditionalSpecFns};

verus! {

/// Why a document could not be read or written. Both carry the message of
/// what went wrong underneath.
#[derive(Debug)]
pub enum DocumentError {
    OpenFailed(String),
    SaveFailed(String),
}

impl DocumentError {
    /// The message that the error carries.
    pub fn message(&self) -> (r: &String)
        ensures
            *r == (match *self {
                DocumentError::OpenFailed(text) => text,
                DocumentError::SaveFailed(text) => text,
            }),
    {
        match self {
            DocumentError::OpenFailed(text) => text,
            DocumentError::SaveFailed(text) => text,
        }
    }
}

/// A note on one page.
#[derive(Debug)]
pub struct AnnotationData {
    /// The page, counted from one.
    pub page: u32,
    /// Distance from the left edge of the page, in millis.
    pub x: i64,
    /// Distance from the top edge of the page, in millis.
    pub y: i64,
    pub content: String,
    /// The font size in millis; fourteen units where there is none.
    pub font_size: Option<i64>,
    /// What the interface knows the annotation by.
    pub id: String,
    /// The document object that holds the annotation; none while it has not
    /// been written yet.
    pub object_id: Option<(u32, u16)>,
}

/// An annotation as contracts see it.
pub struct AnnotationView {
    pub page: u32,
    pub x: i64,
    pub y: i64,
    pub content: Seq<char>,
    pub font_size: Option<i64>,
    pub id: Seq<char>,
    pub object_id: Option<(u32, u16)>,
}

impl View for AnnotationData {
    type V = AnnotationView;

    open spec fn view(&self) -> AnnotationView {
        AnnotationView {
            page: self.page,
            x: self.x,
            y: self.y,
            content: self.content@,
            font_size: self.font_size,
            id: self.id@,
            object_id: self.object_id,
        }
    }
}

/// The annotations of a list as contracts see them.
pub open spec fn views(list: Seq<AnnotationData>) -> Seq<AnnotationView> {
    list.map_values(|a: AnnotationData| a@)
}

/// Largest magnitude, in millis, of the position of an annotation.
pub const POSITION_LIMIT: i64 = 4_000_000_000_000;

/// The font size of an annotation that names none: fourteen units.
pub const DEFAULT_FONT_SIZE: i64 = 14_000;

/// The height of a page that names none: 842 units.
pub const DEFAULT_PAGE_HEIGHT: i64 = 842_000;

impl AnnotationView {
    /// Position and font size are within what the library computes with.
    pub open spec fn valid(self) -> bool {
        &&& -POSITION_LIMIT <= self.x <= POSITION_LIMIT
        &&& -POSITION_LIMIT <= self.y <= POSITION_LIMIT
        &&& self.font_size matches Some(size) ==> in_range(size as int)
    }

    /// The font size that the annotation is shown and written with.
    pub open spec fn effective_font_size(self) -> i64 {
        match self.font_size {
            Some(size) => size,
            None => DEFAULT_FONT_SIZE,
        }
    }
}

impl AnnotationData {
    /// Tells whether position and font size are within what the library
    /// computes with.
    pub fn is_valid(&self) -> (r: bool)
        ensures
            r == self@.valid(),
    {
        let size_ok = match self.font_size {
            Some(size) => -COORD_LIMIT <= size && size <= COORD_LIMIT,
            None => true,
        };
        -POSITION_LIMIT <= self.x && self.x <= POSITION_LIMIT && -POSITION_LIMIT <= self.y
            && self.y <= POSITION_LIMIT && size_ok
    }

    /// A copy of the annotation.
    pub fn duplicate(&self) -> (r: AnnotationData)
        ensures
            r@ == self@,
    {
        AnnotationData {
            page: self.page,
            x: self.x,
            y: self.y,
            content: self.content.clone(),
            font_size: self.font_size,
            id: self.id.clone(),
            object_id: self.object_id,
        }
    }
}

/// The content is mathematical markup as a whole: it begins and it ends with
/// two dollar signs, and the two pairs do not share a sign.
pub open spec fn is_math(content: Seq<char>) -> bool {
    &&& content.len() >= 4
    &&& content[0] == '$'
    &&& content[1] == '$'
    &&& content[content.len() - 2] == '$'
    &&& content[content.len() - 1] == '$'
}

/// The markup between the dollar signs, where the content is mathematical
/// markup as a whole. Any other content is plain text.
pub fn math_body(content: &str) -> (r: Option<&str>)
    ensures
        match r {
            Some(body) => is_math(content@) && body@ == content@.subrange(2, content@.len() - 2),
            None => !is_math(content@),
        },
{
    let len = content.unicode_len();
    if len < 4 {
        return None;
    }
    if content.get_char(0) == '$' && content.get_char(1) == '$' && content.get_char(len - 2) == '$'
        && content.get_char(len - 1) == '$' {
        Some(content.substring_char(2, len - 2))
    } else {
        None
    }
}

/// The key of the annotation list of a page.
pub open spec fn key_annots() -> Seq<u8> {
    "Annots".spec_bytes()
}

/// The key of the media box of a page.
pub open spec fn key_media_box() -> Seq<u8> {
    "MediaBox".spec_bytes()
}

/// The key of the type of a dictionary.
pub open spec fn key_type() -> Seq<u8> {
    "Type".spec_bytes()
}

/// The key of the kind of an annotation.
pub open spec fn key_subtype() -> Seq<u8> {
    "Subtype".spec_bytes()
}

/// The key of the text of an annotation.
pub open spec fn key_contents() -> Seq<u8> {
    "Contents".spec_bytes()
}

/// The key of the rectangle of an annotation.
pub open spec fn key_rect() -> Seq<u8> {
    "Rect".spec_bytes()
}

/// The key of the style string of an annotation.
pub open spec fn key_style() -> Seq<u8> {
    "DA".spec_bytes()
}

/// The type of a dictionary that is an annotation.
pub open spec fn name_annot() -> Seq<u8> {
    "Annot".spec_bytes()
}

/// The kind of an annotation that is free text.
pub open spec fn name_free_text() -> Seq<u8> {
    "FreeText".spec_bytes()
}

/// The identifier that an annotation carries when it comes out of a document:
/// the decimal text of its place in the list of all that come out, counted
/// from zero. So no two have the same.
pub open spec fn serial_id(place: nat) -> Seq<char> {
    decimal_text(place)
}

/// The quantity that a number object stands for, in millis; zero for what is
/// no number or is out of range.
pub open spec fn number_millis(node: Node) -> int {
    match node {
        Node::Integer(value) => if -UNIT_LIMIT <= value <= UNIT_LIMIT {
            value * 1000
        } else {
            0
        },
        Node::Real(text) => match decimal_millis(text) {
            Some(value) => value,
            None => 0,
        },
        _ => 0,
    }
}

/// The height of a page in millis: the distance between the lower and the
/// upper edge of its media box, and the default where it has no such box.
pub open spec fn page_height(page: Map<Seq<u8>, Node>) -> int {
    if page.contains_key(key_media_box()) {
        match page[key_media_box()] {
            Node::Array(edges) => if edges.len() >= 4 {
                let lower = number_millis(edges[1]);
                let upper = number_millis(edges[3]);
                if upper >= lower {
                    upper - lower
                } else {
                    lower - upper
                }
            } else {
                DEFAULT_PAGE_HEIGHT as int
            },
            _ => DEFAULT_PAGE_HEIGHT as int,
        }
    } else {
        DEFAULT_PAGE_HEIGHT as int
    }
}

/// The bytes of a string object, none for any other object.
pub open spec fn text_bytes(node: Node) -> Seq<u8> {
    match node {
        Node::Text(bytes) => bytes,
        _ => Seq::<u8>::empty(),
    }
}

/// The items of the annotation list of a page: the list may stand in the page
/// itself or behind a reference. A page without a list has no items.
pub open spec fn annotation_items(objects: Map<(u32, u16), Node>, page: Map<Seq<u8>, Node>) -> Seq<
    Node,
> {
    if page.contains_key(key_annots()) {
        match page[key_annots()] {
            Node::Array(items) => items,
            Node::Reference(id) => match resolve(objects, id) {
                Some(Node::Array(items)) => items,
                _ => Seq::<Node>::empty(),
            },
            _ => Seq::<Node>::empty(),
        }
    } else {
        Seq::<Node>::empty()
    }
}

/// The dictionary describes a free-text annotation: it has the subtype, a
/// content and a rectangle of four edges.
pub open spec fn describes_free_text(entries: Map<Seq<u8>, Node>) -> bool {
    &&& entries.contains_key(key_subtype())
    &&& entries.contains_key(key_contents())
    &&& entries.contains_key(key_rect())
    &&& entries[key_subtype()] == Node::Name(name_free_text())
    &&& entries[key_rect()] matches Node::Array(edges) && edges.len() >= 4
}

/// The edges of the rectangle of an annotation.
pub open spec fn rect_edges(entries: Map<Seq<u8>, Node>) -> Seq<Node> {
    match entries[key_rect()] {
        Node::Array(edges) => edges,
        _ => Seq::<Node>::empty(),
    }
}

/// The annotation that a dictionary describes, if it describes a free-text
/// annotation. Its position is the left and the top edge of the rectangle,
/// the top edge measured from the top of the page. `place` is its place in
/// the list of all annotations read, which gives it its identifier.
pub open spec fn free_text_annotation(
    entries: Map<Seq<u8>, Node>,
    page: u32,
    height: int,
    handle: Option<(u32, u16)>,
    place: nat,
) -> Option<AnnotationView> {
    if describes_free_text(entries) {
        Some(
            AnnotationView {
                page,
                x: number_millis(rect_edges(entries)[0]) as i64,
                y: (height - number_millis(rect_edges(entries)[3])) as i64,
                content: lossy_text(text_bytes(entries[key_contents()])),
                font_size: if entries.contains_key(key_style()) {
                    font_size_of(text_bytes(entries[key_style()]))
                } else {
                    None
                },
                id: serial_id(place),
                object_id: handle,
            },
        )
    } else {
        None
    }
}

/// The annotation behind one item of an annotation list. An item that is a
/// reference gives the annotation its handle; an item that holds the
/// dictionary itself gives none.
pub open spec fn annotation_of(
    objects: Map<(u32, u16), Node>,
    item: Node,
    page: u32,
    height: int,
    place: nat,
) -> Option<AnnotationView> {
    match item {
        Node::Reference(id) => match resolve(objects, id) {
            Some(Node::Dict(entries)) => free_text_annotation(
                entries,
                page,
                height,
                Some(id),
                place,
            ),
            _ => None,
        },
        Node::Dict(entries) => free_text_annotation(entries, page, height, None, place),
        _ => None,
    }
}

/// The annotations behind the items of a list, in the order of the list;
/// items that describe none are passed over. `base` annotations were read
/// before these.
pub open spec fn collect_annotations(
    objects: Map<(u32, u16), Node>,
    items: Seq<Node>,
    page: u32,
    height: int,
    base: nat,
) -> Seq<AnnotationView>
    decreases items.len(),
{
    if items.len() == 0 {
        Seq::<AnnotationView>::empty()
    } else {
        let before = collect_annotations(objects, items.drop_last(), page, height, base);
        match annotation_of(objects, items.last(), page, height, base + before.len()) {
            Some(annotation) => before.push(annotation),
            None => before,
        }
    }
}

/// The annotations of one page, or nothing where the page is no dictionary.
/// `base` annotations were read before these.
pub open spec fn page_annotations(
    objects: Map<(u32, u16), Node>,
    page: u32,
    id: (u32, u16),
    base: nat,
) -> Option<Seq<AnnotationView>> {
    match resolve(objects, id) {
        Some(Node::Dict(entries)) => Some(
            collect_annotations(
                objects,
                annotation_items(objects, entries),
                page,
                page_height(entries),
                base,
            ),
        ),
        _ => None,
    }
}

/// The annotations of the given pages, page after page, or nothing where one
/// of the pages is no dictionary.
pub open spec fn document_annotations(
    objects: Map<(u32, u16), Node>,
    pages: Seq<(u32, (u32, u16))>,
) -> Option<Seq<AnnotationView>>
    decreases pages.len(),
{
    if pages.len() == 0 {
        Some(Seq::<AnnotationView>::empty())
    } else {
        match document_annotations(objects, pages.drop_last()) {
            Some(before) => match page_annotations(
                objects,
                pages.last().0,
                pages.last().1,
                before.len(),
            ) {
                Some(here) => Some(before + here),
                None => None,
            },
            None => None,
        }
    }
}

/// The list is as it comes out of a document of `pages` pages: each
/// annotation has the identifier of its place, so no two have the same; each
/// stands on one of the pages, which count from one; and the list goes page
/// by page in reading order.
pub open spec fn in_reading_order(list: Seq<AnnotationView>, pages: nat) -> bool {
    &&& forall|k: int| 0 <= k < list.len() ==> (#[trigger] list[k]).id == serial_id(k as nat)
    &&& forall|i: int, j: int|
        0 <= i < list.len() && 0 <= j < list.len() && i != j ==> (#[trigger] list[i]).id != (
        #[trigger] list[j]).id
    &&& forall|k: int| 0 <= k < list.len() ==> 1 <= (#[trigger] list[k]).page <= pages
    &&& forall|i: int, j: int|
        0 <= i < j < list.len() ==> (#[trigger] list[i]).page <= (#[trigger] list[j]).page
}

/// The pages are numbered from one in their order.
pub open spec fn numbered_from_one(pages: Seq<(u32, (u32, u16))>) -> bool {
    forall|i: int| 0 <= i < pages.len() ==> (#[trigger] pages[i]).0 == i + 1
}

/// What is read from one list stands on the page of the list and is
/// numbered on from `base`.
proof fn lemma_collected_shape(
    objects: Map<(u32, u16), Node>,
    items: Seq<Node>,
    page: u32,
    height: int,
    base: nat,
)
    ensures
        forall|k: int|
            0 <= k < collect_annotations(objects, items, page, height, base).len() ==> (
            #[trigger] collect_annotations(objects, items, page, height, base)[k]).page == page
                && collect_annotations(objects, items, page, height, base)[k].id == serial_id(
                (base + k) as nat,
            ),
    decreases items.len(),
{
    if items.len() > 0 {
        lemma_collected_shape(objects, items.drop_last(), page, height, base);
    }
}

/// What is read from a document whose pages are numbered from one is in
/// reading order.
pub proof fn lemma_read_in_order(objects: Map<(u32, u16), Node>, pages: Seq<(u32, (u32, u16))>)
    requires
        numbered_from_one(pages),
        document_annotations(objects, pages) is Some,
    ensures
        in_reading_order(document_annotations(objects, pages).unwrap(), pages.len()),
    decreases pages.len(),
{
    let found = document_annotations(objects, pages).unwrap();
    if pages.len() > 0 {
        let rest = pages.drop_last();
        assert(numbered_from_one(rest)) by {
            assert forall|i: int| 0 <= i < rest.len() implies (#[trigger] rest[i]).0 == i + 1 by {
                assert(rest[i] == pages[i]);
            }
        }
        lemma_read_in_order(objects, rest);
        let before = document_annotations(objects, rest).unwrap();
        let last = pages.last();
        assert(last == pages[pages.len() - 1]);
        let here = page_annotations(objects, last.0, last.1, before.len()).unwrap();
        let entries = match resolve(objects, last.1) {
            Some(Node::Dict(entries)) => entries,
            _ => Map::<Seq<u8>, Node>::empty(),
        };
        lemma_collected_shape(
            objects,
            annotation_items(objects, entries),
            last.0,
            page_height(entries),
            before.len(),
        );
        assert(found == before + here);
        assert forall|k: int| 0 <= k < found.len() implies (#[trigger] found[k]).id == serial_id(
            k as nat,
        ) && 1 <= found[k].page <= pages.len() by {
            if k < before.len() {
                assert(found[k] == before[k]);
            } else {
                assert(found[k] == here[k - before.len()]);
            }
        }
        assert forall|i: int, j: int| 0 <= i < j < found.len() implies (#[trigger] found[i]).page <= (
        #[trigger] found[j]).page by {
            if j < before.len() {
                assert(found[i] == before[i] && found[j] == before[j]);
            } else if i < before.len() {
                assert(found[i] == before[i]);
                assert(found[j] == here[j - before.len()]);
            } else {
                assert(found[i] == here[i - before.len()]);
                assert(found[j] == here[j - before.len()]);
            }
        }
    }
    assert forall|i: int, j: int|
        0 <= i < found.len() && 0 <= j < found.len() && i != j implies (#[trigger] found[i]).id != (
    #[trigger] found[j]).id by {
        crate::ids::lemma_decimal_text_distinct(i as nat, j as nat);
    }
}

/// The quantity that a number object stands for.
pub(crate) fn number_of(obj: &lopdf::Object) -> (r: i64)
    ensures
        r == number_millis(node_of(*obj)),
        in_range(r as int),
{
    match as_integer(obj) {
        Some(value) => {
            if -UNIT_LIMIT <= value && value <= UNIT_LIMIT {
                value * 1000
            } else {
                0
            }
        },
        None => match as_real_text(obj) {
            Some(text) => match parse_decimal(text.as_slice()) {
                Some(value) => value,
                None => 0,
            },
            None => 0,
        },
    }
}

/// The height of a page.
pub(crate) fn page_height_of(page: &lopdf::Dictionary) -> (r: i64)
    ensures
        r == page_height(dict_entries(*page)),
        0 <= r <= 2 * COORD_LIMIT,
{
    match dict_get(page, "MediaBox".as_bytes()) {
        Some(value) => match as_array(value) {
            Some(edges) => {
                if edges.len() >= 4 {
                    let lower = number_of(&edges[1]);
                    let upper = number_of(&edges[3]);
                    if upper >= lower {
                        upper - lower
                    } else {
                        lower - upper
                    }
                } else {
                    DEFAULT_PAGE_HEIGHT
                }
            },
            None => DEFAULT_PAGE_HEIGHT,
        },
        None => DEFAULT_PAGE_HEIGHT,
    }
}

/// Tells whether two byte strings are the same.
pub(crate) fn same_bytes(a: &[u8], b: &[u8]) -> (r: bool)
    ensures
        r == (a@ == b@),
{
    if a.len() != b.len() {
        return false;
    }
    let mut i: usize = 0;
    while i < a.len()
        invariant
            0 <= i <= a@.len(),
            a@.len() == b@.len(),
            forall|k: int| 0 <= k < i ==> a@[k] == b@[k],
        decreases a.len() - i,
    {
        if a[i] != b[i] {
            return false;
        }
        i = i + 1;
    }
    assert(a@ =~= b@);
    true
}

/// The bytes of a string object.
fn text_of(obj: &lopdf::Object) -> (r: Vec<u8>)
    ensures
        r@ == text_bytes(node_of(*obj)),
{
    match as_text(obj) {
        Some(bytes) => vstd::slice::slice_to_vec(bytes),
        None => Vec::new(),
    }
}

/// Reads the annotation that a dictionary describes.
fn read_free_text(
    entries: &lopdf::Dictionary,
    page: u32,
    height: i64,
    handle: Option<(u32, u16)>,
    place: u64,
) -> (r: Option<AnnotationData>)
    requires
        0 <= height <= 2 * COORD_LIMIT,
    ensures
        match free_text_annotation(
            dict_entries(*entries),
            page,
            height as int,
            handle,
            place as nat,
        ) {
            Some(annotation) => r is Some && r.unwrap()@ == annotation,
            None => r is None,
        },
        r matches Some(a) ==> a@.valid(),
{
    let subtype = match dict_get(entries, "Subtype".as_bytes()) {
        Some(value) => value,
        None => { return None; },
    };
    let contents = match dict_get(entries, "Contents".as_bytes()) {
        Some(value) => value,
        None => { return None; },
    };
    let rect = match dict_get(entries, "Rect".as_bytes()) {
        Some(value) => value,
        None => { return None; },
    };
    let is_free_text = match as_name(subtype) {
        Some(name) => same_bytes(name, "FreeText".as_bytes()),
        None => false,
    };
    if !is_free_text {
        return None;
    }
    let edges = match as_array(rect) {
        Some(edges) => edges,
        None => { return None; },
    };
    if edges.len() < 4 {
        return None;
    }
    let content = decode_lossy(text_of(contents).as_slice());
    let font_size = match dict_get(entries, "DA".as_bytes()) {
        Some(style) => parse_font_size_from_da(text_of(style).as_slice()),
        None => None,
    };
    let x = number_of(&edges[0]);
    let top = number_of(&edges[3]);
    Some(
        AnnotationData {
            page,
            x,
            y: height - top,
            content,
            font_size,
            id: decimal_string(place),
            object_id: handle,
        },
    )
}

/// Reads the annotation behind one item of an annotation list.
fn read_annotation(
    doc: &lopdf::Document,
    item: &lopdf::Object,
    page: u32,
    height: i64,
    place: u64,
) -> (r: Option<AnnotationData>)
    requires
        0 <= height <= 2 * COORD_LIMIT,
    ensures
        match annotation_of(doc_objects(*doc), node_of(*item), page, height as int, place as nat) {
            Some(annotation) => r is Some && r.unwrap()@ == annotation,
            None => r is None,
        },
        r matches Some(a) ==> a@.valid(),
{
    match as_reference(item) {
        Some(id) => match lookup(doc, id) {
            Some(target) => match as_dictionary(target) {
                Some(entries) => read_free_text(entries, page, height, Some(id), place),
                None => None,
            },
            None => None,
        },
        None => match as_dictionary(item) {
            Some(entries) => read_free_text(entries, page, height, None, place),
            None => None,
        },
    }
}

/// The annotation list of a page, where it has one.
fn annotation_list<'a>(doc: &'a lopdf::Document, page: &'a lopdf::Dictionary) -> (r: Option<
    &'a Vec<lopdf::Object>,
>)
    ensures
        match r {
            Some(list) => nodes_of(list@) == annotation_items(
                doc_objects(*doc),
                dict_entries(*page),
            ),
            None => annotation_items(doc_objects(*doc), dict_entries(*page)).len() == 0,
        },
{
    let found = match dict_get(page, "Annots".as_bytes()) {
        Some(value) => match as_reference(value) {
            Some(id) => match lookup(doc, id) {
                Some(target) => as_array(target),
                None => None,
            },
            None => as_array(value),
        },
        None => None,
    };
    found
}

/// Reads the annotations of one page onto the end of `out`. Tells whether the
/// page is a dictionary; where it is none, `out` stays as it was.
fn read_page(doc: &lopdf::Document, page: u32, id: (u32, u16), out: &mut Vec<AnnotationData>) -> (r:
    bool)
    requires
        forall|k: int| 0 <= k < old(out)@.len() ==> (#[trigger] old(out)@[k])@.valid(),
    ensures
        match page_annotations(doc_objects(*doc), page, id, old(out)@.len()) {
            Some(found) => r && views(final(out)@) == views(old(out)@) + found,
            None => !r && final(out)@ == old(out)@,
        },
        forall|k: int| 0 <= k < final(out)@.len() ==> (#[trigger] final(out)@[k])@.valid(),
{
    let entries = match lookup(doc, id) {
        Some(target) => match as_dictionary(target) {
            Some(entries) => entries,
            None => { return false; },
        },
        None => { return false; },
    };
    let height = page_height_of(entries);
    let ghost objects = doc_objects(*doc);
    let ghost items = annotation_items(objects, dict_entries(*entries));
    let list = match annotation_list(doc, entries) {
        Some(list) => list,
        None => {
            proof {
                assert(views(out@) + collect_annotations(
                    objects,
                    items,
                    page,
                    height as int,
                    out@.len(),
                ) =~= views(out@));
            }
            return true;
        },
    };
    let ghost start = out@;
    let mut i: usize = 0;
    proof {
        assert(items.subrange(0, 0) =~= Seq::<Node>::empty());
        assert(views(out@) =~= views(start) + Seq::<AnnotationView>::empty());
    }
    while i < list.len()
        invariant
            0 <= i <= list@.len(),
            0 <= height <= 2 * COORD_LIMIT,
            objects == doc_objects(*doc),
            nodes_of(list@) == items,
            views(out@) == views(start) + collect_annotations(
                objects,
                items.subrange(0, i as int),
                page,
                height as int,
                start.len(),
            ),
            forall|k: int| 0 <= k < out@.len() ==> (#[trigger] out@[k])@.valid(),
        decreases list.len() - i,
    {
        let ghost before = out@;
        assert(views(out@).len() == out@.len());
        let found = read_annotation(doc, &list[i], page, height, out.len() as u64);
        proof {
            assert(items.subrange(0, i + 1).drop_last() =~= items.subrange(0, i as int));
            assert(items.subrange(0, i + 1).last() == node_of(list@[i as int]));
        }
        match found {
            Some(annotation) => {
                out.push(annotation);
                proof {
                    assert(views(out@) =~= views(before).push(annotation@));
                    assert(views(out@) =~= views(start) + collect_annotations(
                        objects,
                        items.subrange(0, i + 1),
                        page,
                        height as int,
                        start.len(),
                    ));
                }
            },
            None => {},
        }
        i = i + 1;
    }
    proof {
        assert(items.subrange(0, list@.len() as int) =~= items);
    }
    true
}

/// Reads the annotations out of a document: page after page in reading
/// order, and on each page in the order of its annotation list. An item that
/// describes no free-text annotation is passed over. The reading fails only
/// where a page of the document is no dictionary.
pub fn annotations_of_document(doc: &lopdf::Document) -> (r: Result<
    Vec<AnnotationData>,
    DocumentError,
>)
    ensures
        match document_annotations(doc_objects(*doc), doc_pages(*doc)) {
            Some(found) => r is Ok && views(r.unwrap()@) == found,
            None => r matches Err(e) && e is OpenFailed,
        },
        r matches Ok(list) ==> in_reading_order(views(list@), doc_pages(*doc).len()),
        r matches Ok(list) ==> forall|k: int| 0 <= k < list@.len() ==> (#[trigger] list@[k])@.valid(),
{
    let pages = page_list(doc);
    let ghost objects = doc_objects(*doc);
    let mut out: Vec<AnnotationData> = Vec::new();
    let mut i: usize = 0;
    proof {
        assert(pages@.subrange(0, 0) =~= Seq::<(u32, (u32, u16))>::empty());
        assert(views(out@) =~= Seq::<AnnotationView>::empty());
    }
    while i < pages.len()
        invariant
            0 <= i <= pages@.len(),
            objects == doc_objects(*doc),
            pages@ == doc_pages(*doc),
            document_annotations(objects, pages@.subrange(0, i as int)) == Some(views(out@)),
            forall|k: int| 0 <= k < out@.len() ==> (#[trigger] out@[k])@.valid(),
        decreases pages.len() - i,
    {
        let (number, id) = pages[i];
        proof {
            assert(pages@.subrange(0, i + 1).drop_last() =~= pages@.subrange(0, i as int));
            assert(pages@.subrange(0, i + 1).last() == pages@[i as int]);
        }
        if !read_page(doc, number, id, &mut out) {
            proof {
                lemma_unreadable_page(objects, pages@, i as int);
            }
            return Err(
                DocumentError::OpenFailed(
                    "a page of the document is not a dictionary".to_string(),
                ),
            );
        }
        i = i + 1;
    }
    proof {
        assert(pages@.subrange(0, pages@.len() as int) =~= pages@);
        lemma_read_in_order(objects, pages@);
    }
    Ok(out)
}

/// Where one page among the first `n` is no dictionary, the pages as a whole
/// have no annotations to give.
proof fn lemma_unreadable_page(
    objects: Map<(u32, u16), Node>,
    pages: Seq<(u32, (u32, u16))>,
    at: int,
)
    requires
        0 <= at < pages.len(),
        page_annotations(objects, pages[at].0, pages[at].1, 0) is None,
    ensures
        document_annotations(objects, pages) is None,
    decreases pages.len(),
{
    if at == pages.len() - 1 {
    } else {
        lemma_unreadable_page(objects, pages.drop_last(), at);
    }
}

/// Reads the annotations out of the bytes of a document file: what
/// `annotations_of_document` reads out of the document that the bytes are
/// read as.
///
/// Fails with `OpenFailed` where the bytes cannot be read as a document or a
/// page of the document is no dictionary.
pub fn load_annotations(bytes: &[u8]) -> (r: Result<Vec<AnnotationData>, DocumentError>)
    ensures
        match r {
            Ok(list) => was_read(bytes@, views(list@)),
            Err(e) => e is OpenFailed,
        },
        r matches Ok(list) ==> forall|k: int| 0 <= k < list@.len() ==> (#[trigger] list@[k])@.valid(),
{
    match parse_document(bytes) {
        Ok(doc) => {
            let r = annotations_of_document(&doc);
            proof {
                if r is Ok {
                    assert(read_from(bytes@, doc, views(r.unwrap()@)));
                }
            }
            r
        },
        Err(error) => Err(DocumentError::OpenFailed(error_text(&error))),
    }
}

/// The list is what is read out of the document, which is one that the bytes
/// read as; so the list is in reading order.
pub open spec fn read_from(bytes: Seq<u8>, doc: lopdf::Document, list: Seq<AnnotationView>) -> bool {
    &&& reads_as(bytes, doc)
    &&& document_annotations(doc_objects(doc), doc_pages(doc)) == Some(list)
    &&& in_reading_order(list, doc_pages(doc).len())
}

/// The list is what is read out of a document that the bytes read as.
pub open spec fn was_read(bytes: Seq<u8>, list: Seq<AnnotationView>) -> bool {
    exists|doc: lopdf::Document| #[trigger] read_from(bytes, doc, list)
}

} // verus!
