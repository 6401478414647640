//! Writing annotations back into a document.
//!
//! An annotation that has a handle overwrites the object behind the handle, so
//! what was unchanged keeps its place in the document. One without a handle
//! gets a new object. Each page's annotation list is then replaced by the
//! references just written, so an annotation that is no longer in memory is
//! no longer referenced.

use crate::annotations::{
    key_annots, key_contents, key_rect, key_style, key_subtype, key_type, name_annot,
    name_free_text, page_height, page_height_of, views, AnnotationData, AnnotationView,
    DocumentError, DEFAULT_FONT_SIZE, DEFAULT_PAGE_HEIGHT,
};
use crate::pdf::{
    add_object, array_object, as_dictionary, as_dictionary_mut, chase, decode_lossy, dict_entries,
    dict_remove, lossy_text,
    dict_set, dictionary_object, doc_max_id, doc_objects, doc_pages, document_bytes, error_text,
    lookup, lookup_mut, name_object, new_dictionary, node_of, nodes_of, page_list, parse_document,
    reads_as,
    put_object, real_object, reference_object, resolve, serialize, stored_real_text, text_object, Node,
};
use crate::style::{build_style, style_text};
use crate::units::{format_milli, milli_text, COORD_LIMIT};
use vstd::prelude::*;
use vstd::slice::slice_to_vec;
use vstd::utf8::encode_utf8;

verus! {

/// The width of the rectangle written for an annotation: 200 units.
pub const RECT_WIDTH: i64 = 200_000;

/// Half of a quantity, rounded towards zero.
pub open spec fn half(v: int) -> int {
    if v >= 0 {
        v / 2
    } else {
        -((-v) / 2)
    }
}

/// The height of the rectangle written for a font size: one and a half times
/// the size.
pub open spec fn rect_height(font_size: int) -> int {
    font_size + half(font_size)
}

/// The real number object that is written for a quantity.
pub open spec fn real_node(v: int) -> Node {
    Node::Real(stored_real_text(lossy_text(milli_text(v))))
}

/// The rectangle written for an annotation on a page of the given height:
/// left, bottom, right and top edge, measured from the bottom left corner of
/// the page.
pub open spec fn annotation_rect(a: AnnotationView, height: int) -> Seq<Node> {
    let top = height - a.y;
    seq![
        real_node(a.x as int),
        real_node(top - rect_height(a.effective_font_size() as int)),
        real_node(a.x + RECT_WIDTH),
        real_node(top),
    ]
}

/// The dictionary written for an annotation on a page of the given height.
#[verifier::opaque]
pub open spec fn annotation_entries(a: AnnotationView, height: int) -> Map<Seq<u8>, Node> {
    Map::<Seq<u8>, Node>::empty().insert(key_type(), Node::Name(name_annot())).insert(
        key_subtype(),
        Node::Name(name_free_text()),
    ).insert(key_style(), Node::Text(style_text(a.effective_font_size() as int))).insert(
        key_contents(),
        Node::Text(encode_utf8(a.content)),
    ).insert(key_rect(), Node::Array(annotation_rect(a, height)))
}

/// The part of a document that writing changes: its objects, and the highest
/// object number given out.
pub struct Store {
    pub objects: Map<(u32, u16), Node>,
    pub max_id: u32,
}

/// The store of a document.
pub open spec fn store_of(doc: lopdf::Document) -> Store {
    Store { objects: doc_objects(doc), max_id: doc_max_id(doc) }
}

/// Writes one annotation: over the object behind its handle, or into a new
/// object with the next number. Gives the store and the object written, or
/// nothing where a new number is needed and none is left.
pub open spec fn write_one(store: Store, a: AnnotationView, height: int) -> Option<
    (Store, (u32, u16)),
> {
    let node = Node::Dict(annotation_entries(a, height));
    match a.object_id {
        Some(id) => Some((Store { objects: store.objects.insert(id, node), max_id: store.max_id }, id)),
        None => if store.max_id < u32::MAX {
            let id = ((store.max_id + 1) as u32, 0u16);
            Some((Store { objects: store.objects.insert(id, node), max_id: id.0 }, id))
        } else {
            None
        },
    }
}

/// Writes those of the annotations that stand on the given page, in their
/// order. Gives the store and the references to what was written.
#[verifier::opaque]
pub open spec fn write_annotations_of_page(
    store: Store,
    annotations: Seq<AnnotationView>,
    page: u32,
    height: int,
) -> Option<(Store, Seq<Node>)>
    decreases annotations.len(),
{
    if annotations.len() == 0 {
        Some((store, Seq::<Node>::empty()))
    } else {
        match write_annotations_of_page(store, annotations.drop_last(), page, height) {
            Some((before, refs)) => if annotations.last().page == page {
                match write_one(before, annotations.last(), height) {
                    Some((after, id)) => Some((after, refs.push(Node::Reference(id)))),
                    None => None,
                }
            } else {
                Some((before, refs))
            },
            None => None,
        }
    }
}

/// The height that the annotations of a page are written with: that of the
/// page, and the default where the page is no dictionary.
pub open spec fn height_for(objects: Map<(u32, u16), Node>, id: (u32, u16)) -> int {
    match resolve(objects, id) {
        Some(Node::Dict(entries)) => page_height(entries),
        _ => DEFAULT_PAGE_HEIGHT as int,
    }
}

/// The entries of a page once its annotation list is replaced by the given
/// references; a page without annotations has no list.
pub open spec fn relinked(entries: Map<Seq<u8>, Node>, refs: Seq<Node>) -> Map<Seq<u8>, Node> {
    if refs.len() == 0 {
        entries.remove(key_annots())
    } else {
        entries.insert(key_annots(), Node::Array(refs))
    }
}

/// Replaces the annotation list of a page. A page that is no dictionary is
/// left alone.
pub open spec fn relink_page(objects: Map<(u32, u16), Node>, id: (u32, u16), refs: Seq<Node>) -> Map<
    (u32, u16),
    Node,
> {
    match chase(objects, id, 0) {
        Some((at, Node::Dict(entries))) => objects.insert(at, Node::Dict(relinked(entries, refs))),
        _ => objects,
    }
}

/// Writes the annotations of one page and replaces the page's list.
pub open spec fn write_page(
    store: Store,
    annotations: Seq<AnnotationView>,
    page: u32,
    id: (u32, u16),
) -> Option<Store> {
    match write_annotations_of_page(store, annotations, page, height_for(store.objects, id)) {
        Some((after, refs)) => Some(
            Store { objects: relink_page(after.objects, id, refs), max_id: after.max_id },
        ),
        None => None,
    }
}

/// Writes the annotations page after page.
#[verifier::opaque]
pub open spec fn write_pages(
    store: Store,
    annotations: Seq<AnnotationView>,
    pages: Seq<(u32, (u32, u16))>,
) -> Option<Store>
    decreases pages.len(),
{
    if pages.len() == 0 {
        Some(store)
    } else {
        match write_pages(store, annotations, pages.drop_last()) {
            Some(before) => write_page(before, annotations, pages.last().0, pages.last().1),
            None => None,
        }
    }
}

/// All annotations of the list are within what the library computes with.
pub open spec fn all_valid(annotations: Seq<AnnotationData>) -> bool {
    forall|k: int| 0 <= k < annotations.len() ==> (#[trigger] annotations[k])@.valid()
}

/// Builds the dictionary of an annotation.
fn build_annotation(a: &AnnotationData, height: i64) -> (r: lopdf::Dictionary)
    requires
        a@.valid(),
        0 <= height <= 2 * COORD_LIMIT,
    ensures
        dict_entries(r) == annotation_entries(a@, height as int),
{
    proof {
        reveal(annotation_entries);
    }
    let size = match a.font_size {
        Some(size) => size,
        None => DEFAULT_FONT_SIZE,
    };
    let half_size = if size >= 0 {
        size / 2
    } else {
        -((-size) / 2)
    };
    let top = height - a.y;
    let bottom = top - (size + half_size);
    let right = a.x + RECT_WIDTH;
    let mut edges: Vec<lopdf::Object> = Vec::new();
    edges.push(real_object(decode_lossy(format_milli(a.x).as_slice()).as_str()));
    edges.push(real_object(decode_lossy(format_milli(bottom).as_slice()).as_str()));
    edges.push(real_object(decode_lossy(format_milli(right).as_slice()).as_str()));
    edges.push(real_object(decode_lossy(format_milli(top).as_slice()).as_str()));
    proof {
        assert(nodes_of(edges@) =~= annotation_rect(
            a@,
            height as int,
        ));
    }
    let mut entries = new_dictionary();
    dict_set(&mut entries, "Type".as_bytes(), name_object("Annot".as_bytes()));
    dict_set(&mut entries, "Subtype".as_bytes(), name_object("FreeText".as_bytes()));
    dict_set(&mut entries, "DA".as_bytes(), text_object(build_style(size)));
    dict_set(
        &mut entries,
        "Contents".as_bytes(),
        text_object(slice_to_vec(a.content.as_str().as_bytes())),
    );
    dict_set(&mut entries, "Rect".as_bytes(), array_object(edges));
    entries
}

/// Writes one annotation into the document. Gives the object written, or
/// nothing where a new number is needed and none is left.
fn write_annotation(doc: &mut lopdf::Document, a: &AnnotationData, height: i64) -> (r: Option<
    (u32, u16),
>)
    requires
        a@.valid(),
        0 <= height <= 2 * COORD_LIMIT,
    ensures
        match write_one(store_of(*old(doc)), a@, height as int) {
            Some((after, id)) => r == Some(id) && store_of(*final(doc)) == after,
            None => r is None,
        },
{
    let entries = build_annotation(a, height);
    match a.object_id {
        Some(id) => {
            put_object(doc, id, dictionary_object(entries));
            Some(id)
        },
        None => add_object(doc, dictionary_object(entries)),
    }
}

/// The height that the annotations of a page are written with.
fn height_of_page(doc: &lopdf::Document, id: (u32, u16)) -> (r: i64)
    ensures
        r == height_for(doc_objects(*doc), id),
        0 <= r <= 2 * COORD_LIMIT,
{
    match lookup(doc, id) {
        Some(target) => match as_dictionary(target) {
            Some(entries) => page_height_of(entries),
            None => DEFAULT_PAGE_HEIGHT,
        },
        None => DEFAULT_PAGE_HEIGHT,
    }
}

/// Replaces the annotation list of a page by the given references.
fn relink(doc: &mut lopdf::Document, id: (u32, u16), refs: Vec<lopdf::Object>)
    ensures
        doc_objects(*final(doc)) == relink_page(
            doc_objects(*old(doc)),
            id,
            nodes_of(refs@),
        ),
        doc_max_id(*final(doc)) == doc_max_id(*old(doc)),
{
    let ghost objects = doc_objects(*doc);
    match lookup_mut(doc, id) {
        Some(target) => {
            let ghost found = node_of(*target);
            match as_dictionary_mut(target) {
                Some(entries) => {
                    if refs.len() == 0 {
                        dict_remove(entries, "Annots".as_bytes());
                    } else {
                        dict_set(entries, "Annots".as_bytes(), array_object(refs));
                    }
                },
                None => {
                    proof {
                        let at = chase(objects, id, 0).unwrap().0;
                        lemma_chase_lands(objects, id, 0);
                        assert(objects.insert(at, found) =~= objects);
                    }
                },
            }
        },
        None => {},
    }
}

/// Where a lookup ends, there is an object, and it is what the lookup finds.
proof fn lemma_chase_lands(objects: Map<(u32, u16), Node>, at: (u32, u16), hops: nat)
    requires
        chase(objects, at, hops) is Some,
    ensures
        objects.contains_key(chase(objects, at, hops).unwrap().0),
        objects[chase(objects, at, hops).unwrap().0] == chase(objects, at, hops).unwrap().1,
        !(chase(objects, at, hops).unwrap().1 is Reference),
    decreases 128 - hops,
{
    match objects[at] {
        Node::Reference(next) => {
            lemma_chase_lands(objects, next, hops + 1);
        },
        _ => {},
    }
}

/// Writes the annotations of one page and replaces the page's list. Tells
/// whether a number was there for every new object.
fn write_page_of(
    doc: &mut lopdf::Document,
    annotations: &Vec<AnnotationData>,
    page: u32,
    id: (u32, u16),
) -> (r: bool)
    requires
        all_valid(annotations@),
    ensures
        match write_page(store_of(*old(doc)), views(annotations@), page, id) {
            Some(after) => r && store_of(*final(doc)) == after,
            None => !r,
        },
{
    let height = height_of_page(doc, id);
    let ghost start = store_of(*doc);
    let ghost all = views(annotations@);
    let mut refs: Vec<lopdf::Object> = Vec::new();
    let mut i: usize = 0;
    proof {
        reveal(write_annotations_of_page);
        assert(all.subrange(0, 0) =~= Seq::<AnnotationView>::empty());
        assert(nodes_of(refs@) =~= Seq::<Node>::empty());
    }
    while i < annotations.len()
        invariant
            0 <= i <= annotations@.len(),
            all_valid(annotations@),
            all == views(annotations@),
            0 <= height <= 2 * COORD_LIMIT,
            start == store_of(*old(doc)),
            height == height_for(start.objects, id),
            write_annotations_of_page(start, all.subrange(0, i as int), page, height as int)
                == Some((store_of(*doc), nodes_of(refs@))),
        decreases annotations.len() - i,
    {
        let a = &annotations[i];
        proof {
            assert(all[i as int] == a@);
            lemma_page_write_step(start, all, i as int, page, height as int);
        }
        if a.page == page {
            let ghost before = nodes_of(refs@);
            match write_annotation(doc, a, height) {
                Some(written) => {
                    refs.push(reference_object(written));
                    proof {
                        assert(nodes_of(refs@)
                            =~= before.push(Node::Reference(written)));
                    }
                },
                None => {
                    proof {
                        lemma_page_write_fails(start, all, i + 1, page, height as int);
                    }
                    return false;
                },
            }
        }
        i = i + 1;
    }
    proof {
        assert(all.subrange(0, annotations@.len() as int) =~= all);
    }
    relink(doc, id, refs);
    true
}

/// Writing one annotation more: what the first `n + 1` give, from what the
/// first `n` give.
proof fn lemma_page_write_step(
    store: Store,
    annotations: Seq<AnnotationView>,
    n: int,
    page: u32,
    height: int,
)
    requires
        0 <= n < annotations.len(),
    ensures
        write_annotations_of_page(store, annotations.subrange(0, n + 1), page, height) == (
        match write_annotations_of_page(store, annotations.subrange(0, n), page, height) {
            Some((before, refs)) => if annotations[n].page == page {
                match write_one(before, annotations[n], height) {
                    Some((after, id)) => Some((after, refs.push(Node::Reference(id)))),
                    None => None,
                }
            } else {
                Some((before, refs))
            },
            None => None,
        }),
{
    reveal(write_annotations_of_page);
    assert(annotations.subrange(0, n + 1).drop_last() =~= annotations.subrange(0, n));
    assert(annotations.subrange(0, n + 1).last() == annotations[n]);
}

/// Writing one page more: what the first `n + 1` pages give, from what the
/// first `n` give.
proof fn lemma_pages_write_step(
    store: Store,
    annotations: Seq<AnnotationView>,
    pages: Seq<(u32, (u32, u16))>,
    n: int,
)
    requires
        0 <= n < pages.len(),
    ensures
        write_pages(store, annotations, pages.subrange(0, n + 1)) == (match write_pages(
            store,
            annotations,
            pages.subrange(0, n),
        ) {
            Some(before) => write_page(before, annotations, pages[n].0, pages[n].1),
            None => None,
        }),
{
    reveal(write_pages);
    assert(pages.subrange(0, n + 1).drop_last() =~= pages.subrange(0, n));
    assert(pages.subrange(0, n + 1).last() == pages[n]);
}

/// Where writing the first `n` annotations of a page fails, writing them all
/// fails.
proof fn lemma_page_write_fails(
    store: Store,
    annotations: Seq<AnnotationView>,
    n: int,
    page: u32,
    height: int,
)
    requires
        0 <= n <= annotations.len(),
        write_annotations_of_page(store, annotations.subrange(0, n), page, height) is None,
    ensures
        write_annotations_of_page(store, annotations, page, height) is None,
    decreases annotations.len() - n,
{
    if n == annotations.len() {
        assert(annotations.subrange(0, n) =~= annotations);
    } else {
        lemma_page_write_step(store, annotations, n, page, height);
        lemma_page_write_fails(store, annotations, n + 1, page, height);
    }
}

/// Where writing the first `n` pages fails, writing all pages fails.
proof fn lemma_pages_write_fails(
    store: Store,
    annotations: Seq<AnnotationView>,
    pages: Seq<(u32, (u32, u16))>,
    n: int,
)
    requires
        0 <= n <= pages.len(),
        write_pages(store, annotations, pages.subrange(0, n)) is None,
    ensures
        write_pages(store, annotations, pages) is None,
    decreases pages.len() - n,
{
    if n == pages.len() {
        assert(pages.subrange(0, n) =~= pages);
    } else {
        lemma_pages_write_step(store, annotations, pages, n);
        lemma_pages_write_fails(store, annotations, pages, n + 1);
    }
}

/// Writes the annotations into the document, page after page in reading
/// order: each annotation over the object behind its handle or into a new
/// object, and each page's annotation list replaced by references to what
/// was written for the page (taken away where nothing was). An annotation
/// whose page the document does not have is not written.
///
/// Fails with `SaveFailed` exactly where a new object is needed and the
/// document has no object number left; the document is then half written.
pub fn write_annotations(doc: &mut lopdf::Document, annotations: &Vec<AnnotationData>) -> (r:
    Result<(), DocumentError>)
    requires
        all_valid(annotations@),
    ensures
        match write_pages(store_of(*old(doc)), views(annotations@), doc_pages(*old(doc))) {
            Some(after) => r is Ok && store_of(*final(doc)) == after,
            None => r matches Err(e) && e is SaveFailed,
        },
{
    let pages = page_list(doc);
    let ghost start = store_of(*doc);
    let ghost all = views(annotations@);
    let mut i: usize = 0;
    proof {
        reveal(write_pages);
        assert(pages@.subrange(0, 0) =~= Seq::<(u32, (u32, u16))>::empty());
    }
    while i < pages.len()
        invariant
            0 <= i <= pages@.len(),
            all_valid(annotations@),
            all == views(annotations@),
            start == store_of(*old(doc)),
            pages@ == doc_pages(*old(doc)),
            write_pages(start, all, pages@.subrange(0, i as int)) == Some(store_of(*doc)),
        decreases pages.len() - i,
    {
        let (number, id) = pages[i];
        proof {
            lemma_pages_write_step(start, all, pages@, i as int);
        }
        if !write_page_of(doc, annotations, number, id) {
            proof {
                lemma_pages_write_fails(start, all, pages@, i + 1);
            }
            return Err(
                DocumentError::SaveFailed("the document has no object number left".to_string()),
            );
        }
        i = i + 1;
    }
    proof {
        assert(pages@.subrange(0, pages@.len() as int) =~= pages@);
    }
    Ok(())
}

/// What comes of putting a document into bytes once the annotations are
/// written into it: `written` is the document with the store `after`, and
/// the outcome is `written` as a file, or `SaveFailed` where it cannot be
/// put into bytes.
pub open spec fn gives(
    written: lopdf::Document,
    after: Store,
    outcome: Result<Vec<u8>, DocumentError>,
) -> bool {
    store_of(written) == after && match outcome {
        Ok(out) => document_bytes(written) == Some(out@),
        Err(e) => e is SaveFailed && document_bytes(written) is None,
    }
}

/// Writes the annotations into a document, as `write_annotations` does, and
/// gives the bytes of the document as a file.
///
/// Fails with `SaveFailed` exactly where the document has no object number
/// left for a new object, or cannot be put into bytes once the annotations
/// are written.
pub fn save_document(doc: &mut lopdf::Document, annotations: &Vec<AnnotationData>) -> (r: Result<
    Vec<u8>,
    DocumentError,
>)
    requires
        all_valid(annotations@),
    ensures
        match write_pages(store_of(*old(doc)), views(annotations@), doc_pages(*old(doc))) {
            None => r matches Err(e) && e is SaveFailed,
            Some(after) => exists|written: lopdf::Document| #[trigger] gives(written, after, r),
        },
{
    match write_annotations(doc, annotations) {
        Ok(()) => {},
        Err(error) => {
            return Err(error);
        },
    }
    let ghost written = *doc;
    let r = match serialize(doc) {
        Ok(out) => Ok(out),
        Err(message) => Err(DocumentError::SaveFailed(message)),
    };
    proof {
        let after = write_pages(
            store_of(*old(doc)),
            views(annotations@),
            doc_pages(*old(doc)),
        ).unwrap();
        assert(gives(written, after, r));
    }
    r
}

/// Reads the bytes of a file as a document, writes the annotations into it
/// and gives the bytes of the document as it then is, as `save_document`
/// does: see `saves_as`.
///
/// Fails with `OpenFailed` where the bytes cannot be read as a document, and
/// with `SaveFailed` where the document that they are read as cannot take
/// the annotations or cannot be put into bytes: see `cannot_save`.
pub fn save_pdf_with_annotations(bytes: &[u8], annotations: &Vec<AnnotationData>) -> (r: Result<
    Vec<u8>,
    DocumentError,
>)
    requires
        all_valid(annotations@),
    ensures
        match r {
            Ok(out) => was_saved(bytes@, views(annotations@), out@),
            Err(DocumentError::SaveFailed(_)) => was_refused(bytes@, views(annotations@)),
            Err(DocumentError::OpenFailed(_)) => true,
        },
{
    let mut doc = match parse_document(bytes) {
        Ok(doc) => doc,
        Err(error) => {
            return Err(DocumentError::OpenFailed(error_text(&error)));
        },
    };
    let ghost read = doc;
    let r = save_document(&mut doc, annotations);
    proof {
        let all = views(annotations@);
        match write_pages(store_of(read), all, doc_pages(read)) {
            Some(after) => {
                let written = choose|written: lopdf::Document| #[trigger] gives(written, after, r);
                if r is Ok {
                    assert(saves_as(bytes@, read, all, written, r.unwrap()@));
                } else {
                    assert(store_of(written) == after && document_bytes(written) is None);
                    assert(cannot_save(bytes@, read, all));
                }
            },
            None => {
                assert(cannot_save(bytes@, read, all));
            },
        }
    }
    r
}

/// The bytes `out` are what comes of writing the annotations into the
/// document, which is one that the bytes `bytes` read as: the writing turns
/// the store of `doc` into the store of `written`, and `out` is `written` as
/// a file.
pub open spec fn saves_as(
    bytes: Seq<u8>,
    doc: lopdf::Document,
    annotations: Seq<AnnotationView>,
    written: lopdf::Document,
    out: Seq<u8>,
) -> bool {
    &&& reads_as(bytes, doc)
    &&& write_pages(store_of(doc), annotations, doc_pages(doc)) == Some(store_of(written))
    &&& document_bytes(written) == Some(out)
}

/// The bytes `out` are what comes of writing the annotations into a document
/// that the bytes `bytes` read as.
pub open spec fn was_saved(bytes: Seq<u8>, annotations: Seq<AnnotationView>, out: Seq<u8>) -> bool {
    exists|doc: lopdf::Document, written: lopdf::Document| #[trigger]
        saves_as(bytes, doc, annotations, written, out)
}

/// Nothing comes of writing the annotations into a document that the bytes
/// read as.
pub open spec fn was_refused(bytes: Seq<u8>, annotations: Seq<AnnotationView>) -> bool {
    exists|doc: lopdf::Document| #[trigger] cannot_save(bytes, doc, annotations)
}

/// Nothing comes of writing the annotations into the document, which is one
/// that the bytes read as: it has no object number left for a new object, or
/// it cannot be put into bytes once the annotations are written.
pub open spec fn cannot_save(
    bytes: Seq<u8>,
    doc: lopdf::Document,
    annotations: Seq<AnnotationView>,
) -> bool {
    reads_as(bytes, doc) && match write_pages(store_of(doc), annotations, doc_pages(doc)) {
        Some(after) => exists|written: lopdf::Document|
            store_of(written) == after && #[trigger] document_bytes(written) is None,
        None => true,
    }
}

} // verus!
