//! What holds of a document once annotations were written into it, and of
//! reading them back.

use crate::annotations::{
    annotation_items, annotation_of, collect_annotations, describes_free_text,
    document_annotations, free_text_annotation, key_annots, key_contents, key_media_box, key_rect, key_style,
    key_subtype, page_annotations, page_height, AnnotationView,
};
use crate::annotations::{views, AnnotationData};
use crate::pdf::{
    as_dictionary, chase, doc_pages, max_id, object_at, page_list, Node,
};
use crate::style::lemma_style_names_its_size;
use crate::writer::{
    annotation_entries, annotation_rect, height_for, relinked, store_of,
    write_annotations_of_page, write_one, write_page, write_pages, Store,
};
use vstd::prelude::*;
use vstd::string::is_ascii_spec_bytes;

verus! {

/// The keys of an annotation's dictionary are four different keys.
proof fn lemma_keys_differ()
    ensures
        key_subtype() != key_style(),
        key_subtype() != key_contents(),
        key_subtype() != key_rect(),
        key_contents() != key_rect(),
        key_style() != key_contents(),
        key_style() != key_rect(),
        key_annots() != key_media_box(),
{
    broadcast use is_ascii_spec_bytes;

    reveal_strlit("Annots");
    reveal_strlit("MediaBox");
    assert(vstd::string::is_ascii("Annots"));
    assert(vstd::string::is_ascii("MediaBox"));
    assert(key_annots().len() == 6);
    assert(key_media_box().len() == 8);

    reveal_strlit("Subtype");
    reveal_strlit("DA");
    reveal_strlit("Contents");
    reveal_strlit("Rect");
    assert(vstd::string::is_ascii("Subtype"));
    assert(vstd::string::is_ascii("DA"));
    assert(vstd::string::is_ascii("Contents"));
    assert(vstd::string::is_ascii("Rect"));
    assert(key_subtype().len() == 7);
    assert(key_style().len() == 2);
    assert(key_contents().len() == 8);
    assert(key_rect().len() == 4);
}

/// What is written for an annotation reads as a free-text annotation.
pub proof fn lemma_written_reads_back(a: AnnotationView, height: int)
    ensures
        describes_free_text(annotation_entries(a, height)),
{
    reveal(annotation_entries);
    lemma_keys_differ();
    assert(annotation_rect(a, height).len() == 4);
}

/// Font size and handle are kept: what is written for an annotation reads
/// as an annotation with the font size that it was written with, on the
/// page and under the handle that it is read for.
pub proof fn lemma_written_font_size_read_back(
    a: AnnotationView,
    height: int,
    page: u32,
    read_height: int,
    handle: Option<(u32, u16)>,
    place: nat,
)
    requires
        a.valid(),
    ensures
        ({
            let read = free_text_annotation(
                annotation_entries(a, height),
                page,
                read_height,
                handle,
                place,
            );
            &&& read is Some
            &&& read.unwrap().font_size == Some(a.effective_font_size())
            &&& read.unwrap().page == page
            &&& read.unwrap().object_id == handle
        }),
{
    reveal(annotation_entries);
    lemma_keys_differ();
    lemma_written_reads_back(a, height);
    lemma_style_names_its_size(a.effective_font_size() as int);
}

/// How many annotations of the list stand on the page.
pub open spec fn count_on_page(annotations: Seq<AnnotationView>, page: u32) -> nat
    decreases annotations.len(),
{
    if annotations.len() == 0 {
        0
    } else {
        count_on_page(annotations.drop_last(), page) + if annotations.last().page == page {
            1nat
        } else {
            0nat
        }
    }
}

/// Some annotation of the list that stands on the page has the handle.
pub open spec fn handle_on_page(annotations: Seq<AnnotationView>, page: u32, id: (u32, u16)) -> bool {
    exists|j: int|
        0 <= j < annotations.len() && (#[trigger] annotations[j]).page == page
            && annotations[j].object_id == Some(id)
}

/// Some annotation of the list has the handle.
pub open spec fn is_handle(annotations: Seq<AnnotationView>, id: (u32, u16)) -> bool {
    exists|j: int| 0 <= j < annotations.len() && (#[trigger] annotations[j]).object_id == Some(id)
}

/// No two annotations of the list share a handle.
pub open spec fn distinct_handles(annotations: Seq<AnnotationView>) -> bool {
    forall|i: int, j: int|
        0 <= i < j < annotations.len() && (#[trigger] annotations[i]).object_id is Some
            ==> annotations[i].object_id != (#[trigger] annotations[j]).object_id
}

/// Every handle of the list has a number that the document has given out.
pub open spec fn handles_within(annotations: Seq<AnnotationView>, max_id: u32) -> bool {
    forall|j: int|
        0 <= j < annotations.len() ==> ((#[trigger] annotations[j]).object_id matches Some(id)
            ==> id.0 <= max_id)
}

/// The object is one that the writing of the page made anew: its number was
/// given out after `low`, up to `high`.
pub open spec fn made_between(id: (u32, u16), low: u32, high: u32) -> bool {
    low < id.0 <= high && id.1 == 0
}

/// The object holds a dictionary that reads as a free-text annotation.
pub open spec fn holds_free_text(objects: Map<(u32, u16), Node>, id: (u32, u16)) -> bool {
    objects.contains_key(id) && (objects[id] matches Node::Dict(entries) && describes_free_text(
        entries,
    ))
}

/// The reference at place `m` of the list is to the dictionary that is
/// written for the annotation on a page of the given height; where the
/// annotation has a handle, the reference is to the handle.
pub open spec fn written_at(
    objects: Map<(u32, u16), Node>,
    refs: Seq<Node>,
    m: int,
    a: AnnotationView,
    height: int,
) -> bool {
    0 <= m < refs.len() && (refs[m] matches Node::Reference(id) && objects.contains_key(id)
        && objects[id] == Node::Dict(annotation_entries(a, height)) && (a.object_id is Some
        ==> a.object_id == Some(id)))
}

/// For each annotation of the page the list has a reference to the
/// dictionary that is written for it.
pub open spec fn all_written(
    objects: Map<(u32, u16), Node>,
    annotations: Seq<AnnotationView>,
    page: u32,
    refs: Seq<Node>,
    height: int,
) -> bool {
    forall|j: int|
        0 <= j < annotations.len() && (#[trigger] annotations[j]).page == page ==> exists|m: int| #[trigger]
            written_at(objects, refs, m, annotations[j], height)
}

/// The object that the reference at place `m` is to is the same in both.
pub open spec fn same_at(
    before: Map<(u32, u16), Node>,
    after: Map<(u32, u16), Node>,
    refs: Seq<Node>,
    m: int,
) -> bool {
    refs[m] matches Node::Reference(id) && (after.contains_key(id) <==> before.contains_key(id))
        && after[id] == before[id]
}

/// What writing the annotations of one page does to the store, and what the
/// references are that it gives.
proof fn lemma_page_annotations_written(
    store: Store,
    annotations: Seq<AnnotationView>,
    page: u32,
    height: int,
)
    requires
        write_annotations_of_page(store, annotations, page, height) is Some,
        distinct_handles(annotations),
        handles_within(annotations, store.max_id),
    ensures
        ({
            let (after, refs) = write_annotations_of_page(store, annotations, page, height).unwrap();
            &&& store.max_id <= after.max_id
            &&& refs.len() == count_on_page(annotations, page)
            &&& forall|k: (u32, u16)|
                !handle_on_page(annotations, page, k) && k.0 <= store.max_id ==> (
                after.objects.contains_key(k) <==> store.objects.contains_key(k))
                    && after.objects[k] == store.objects[k]
            &&& forall|m: int|
                0 <= m < refs.len() ==> (#[trigger] refs[m] matches Node::Reference(id) && (
                handle_on_page(annotations, page, id) || made_between(
                    id,
                    store.max_id,
                    after.max_id,
                )) && holds_free_text(after.objects, id))
            &&& forall|j: int|
                0 <= j < annotations.len() && (#[trigger] annotations[j]).page == page
                    && annotations[j].object_id is Some ==> exists|m: int|
                    0 <= m < refs.len() && #[trigger] refs[m] == Node::Reference(
                        annotations[j].object_id.unwrap(),
                    )
            &&& all_written(after.objects, annotations, page, refs, height)
        }),
    decreases annotations.len(),
{
    reveal(write_annotations_of_page);
    if annotations.len() == 0 {
    } else {
        let rest = annotations.drop_last();
        let last = annotations.last();
        let n = annotations.len() - 1;
        assert(forall|j: int| 0 <= j < n ==> rest[j] == annotations[j]);
        assert(distinct_handles(rest)) by {
            assert forall|i: int, j: int|
                0 <= i < j < rest.len() && (#[trigger] rest[i]).object_id is Some implies rest[i].object_id
                != (#[trigger] rest[j]).object_id by {
                assert(rest[i] == annotations[i] && rest[j] == annotations[j]);
            }
        }
        assert(handles_within(rest, store.max_id)) by {
            assert forall|j: int| 0 <= j < rest.len() implies ((#[trigger] rest[j]).object_id matches Some(
                id,
            ) ==> id.0 <= store.max_id) by {
                assert(rest[j] == annotations[j]);
            }
        }
        lemma_page_annotations_written(store, rest, page, height);
        let (before, refs0) = write_annotations_of_page(store, rest, page, height).unwrap();
        let (after, refs) = write_annotations_of_page(store, annotations, page, height).unwrap();
        assert forall|k: (u32, u16)| handle_on_page(rest, page, k) implies handle_on_page(
            annotations,
            page,
            k,
        ) by {
            let j = choose|j: int|
                0 <= j < rest.len() && (#[trigger] rest[j]).page == page && rest[j].object_id
                    == Some(k);
            assert(annotations[j] == rest[j]);
        }
        if last.page == page {
            let (mid, id) = write_one(before, last, height).unwrap();
            lemma_written_reads_back(last, height);
            assert(after == mid);
            assert(refs == refs0.push(Node::Reference(id)));
            assert(annotations[n] == last);
            if last.object_id is Some {
                assert(handle_on_page(annotations, page, id));
            } else {
                assert(made_between(id, store.max_id, after.max_id));
            }
            // the new object is none of those written before
            assert forall|m: int| 0 <= m < refs0.len() implies (#[trigger] refs0[m] matches Node::Reference(
                other,
            ) && other != id) by {
                let other = refs0[m]->Reference_0;
                if other == id {
                    if last.object_id is Some {
                        if handle_on_page(rest, page, other) {
                            let j = choose|j: int|
                                0 <= j < rest.len() && (#[trigger] rest[j]).page == page
                                    && rest[j].object_id == Some(other);
                            assert(annotations[j] == rest[j]);
                            assert(annotations[j].object_id != annotations[n].object_id);
                        } else {
                            assert(made_between(other, store.max_id, before.max_id));
                            assert(id.0 <= store.max_id);
                        }
                    } else {
                        if handle_on_page(rest, page, other) {
                            let j = choose|j: int|
                                0 <= j < rest.len() && (#[trigger] rest[j]).page == page
                                    && rest[j].object_id == Some(other);
                            assert(annotations[j] == rest[j]);
                            assert(other.0 <= store.max_id);
                        } else {
                            assert(made_between(other, store.max_id, before.max_id));
                        }
                    }
                }
            }
            assert forall|m: int| 0 <= m < refs.len() implies (#[trigger] refs[m] matches Node::Reference(
                x,
            ) && (handle_on_page(annotations, page, x) || made_between(x, store.max_id, after.max_id))
                && holds_free_text(after.objects, x)) by {
                if m < refs0.len() {
                    assert(refs[m] == refs0[m]);
                }
            }
            assert forall|k: (u32, u16)|
                !handle_on_page(annotations, page, k) && k.0 <= store.max_id implies (
            after.objects.contains_key(k) <==> store.objects.contains_key(k)) && after.objects[k]
                == store.objects[k] by {
                assert(k != id);
            }
            assert forall|j: int|
                0 <= j < annotations.len() && (#[trigger] annotations[j]).page == page
                    && annotations[j].object_id is Some implies exists|m: int|
                0 <= m < refs.len() && #[trigger] refs[m] == Node::Reference(
                    annotations[j].object_id.unwrap(),
                ) by {
                if j < n {
                    assert(rest[j] == annotations[j]);
                    let m = choose|m: int|
                        0 <= m < refs0.len() && #[trigger] refs0[m] == Node::Reference(
                            rest[j].object_id.unwrap(),
                        );
                    assert(refs[m] == refs0[m]);
                } else {
                    assert(refs[refs0.len() as int] == Node::Reference(id));
                }
            }
            assert forall|j: int|
                0 <= j < annotations.len() && (#[trigger] annotations[j]).page == page implies exists|
                m: int,
            | #[trigger] written_at(after.objects, refs, m, annotations[j], height) by {
                if j < n {
                    assert(rest[j] == annotations[j]);
                    let m = choose|m: int| #[trigger]
                        written_at(before.objects, refs0, m, rest[j], height);
                    assert(refs0[m] matches Node::Reference(other) && other != id);
                    assert(refs[m] == refs0[m]);
                    assert(written_at(after.objects, refs, m, annotations[j], height));
                } else {
                    assert(refs[refs0.len() as int] == Node::Reference(id));
                    assert(written_at(
                        after.objects,
                        refs,
                        refs0.len() as int,
                        annotations[j],
                        height,
                    ));
                }
            }
        } else {
            assert(after == before && refs == refs0);
            assert forall|j: int|
                0 <= j < annotations.len() && (#[trigger] annotations[j]).page == page implies exists|
                m: int,
            | #[trigger] written_at(after.objects, refs, m, annotations[j], height) by {
                assert(j < n);
                assert(rest[j] == annotations[j]);
                let m = choose|m: int| #[trigger]
                    written_at(before.objects, refs0, m, rest[j], height);
                assert(written_at(after.objects, refs, m, annotations[j], height));
            }
            assert forall|k: (u32, u16)|
                !handle_on_page(annotations, page, k) && k.0 <= store.max_id implies (
            after.objects.contains_key(k) <==> store.objects.contains_key(k)) && after.objects[k]
                == store.objects[k] by {
                assert(!handle_on_page(rest, page, k));
            }
            assert forall|j: int|
                0 <= j < annotations.len() && (#[trigger] annotations[j]).page == page
                    && annotations[j].object_id is Some implies exists|m: int|
                0 <= m < refs.len() && #[trigger] refs[m] == Node::Reference(
                    annotations[j].object_id.unwrap(),
                ) by {
                assert(j < n);
                assert(rest[j] == annotations[j]);
            }
        }
    }
}

/// The references stand for what was written for the annotations of a page:
/// one for each annotation of the page, each to a free-text annotation that
/// is behind a handle of the page or was made anew, and one to each handle of
/// the page.
pub open spec fn refs_written(
    objects: Map<(u32, u16), Node>,
    annotations: Seq<AnnotationView>,
    page: u32,
    refs: Seq<Node>,
    low: u32,
    high: u32,
) -> bool {
    &&& refs.len() == count_on_page(annotations, page)
    &&& forall|m: int|
        0 <= m < refs.len() ==> (#[trigger] refs[m] matches Node::Reference(id) && (handle_on_page(
            annotations,
            page,
            id,
        ) || made_between(id, low, high)) && holds_free_text(objects, id))
    &&& forall|j: int|
        0 <= j < annotations.len() && (#[trigger] annotations[j]).page == page
            && annotations[j].object_id is Some ==> exists|m: int|
            0 <= m < refs.len() && #[trigger] refs[m] == Node::Reference(
                annotations[j].object_id.unwrap(),
            )
}

/// The page is a dictionary whose annotation list, where it has one, stands
/// in the page itself and is not empty.
pub open spec fn page_lists_directly(objects: Map<(u32, u16), Node>, id: (u32, u16)) -> bool {
    objects.contains_key(id) && (objects[id] matches Node::Dict(entries) && (entries.contains_key(
        key_annots(),
    ) ==> (entries[key_annots()] matches Node::Array(items) && items.len() > 0)))
}

/// The entries of an object that is a dictionary.
pub open spec fn entries_of(objects: Map<(u32, u16), Node>, id: (u32, u16)) -> Map<Seq<u8>, Node> {
    match objects[id] {
        Node::Dict(entries) => entries,
        _ => Map::<Seq<u8>, Node>::empty(),
    }
}

/// The page is in the state in which the writing of its annotations left it:
/// its list holds the references written, and what they refer to is there:
/// for each annotation of the page the dictionary that is written for it.
pub open spec fn page_saved(
    store: Store,
    annotations: Seq<AnnotationView>,
    page: u32,
    id: (u32, u16),
    low: u32,
) -> bool {
    &&& page_lists_directly(store.objects, id)
    &&& refs_written(
        store.objects,
        annotations,
        page,
        annotation_items(store.objects, entries_of(store.objects, id)),
        low,
        store.max_id,
    )
    &&& all_written(
        store.objects,
        annotations,
        page,
        annotation_items(store.objects, entries_of(store.objects, id)),
        page_height(entries_of(store.objects, id)),
    )
}

/// What the writing of one page needs of the page: it is a dictionary that
/// the document numbered, and no annotation has it as its handle.
pub open spec fn page_ready(
    store: Store,
    annotations: Seq<AnnotationView>,
    id: (u32, u16),
    low: u32,
) -> bool {
    &&& store.objects.contains_key(id)
    &&& store.objects[id] is Dict
    &&& id.0 <= low
    &&& !is_handle(annotations, id)
}

/// What writing one page does to the store: the page is saved, and all other
/// objects but the handles of the page stay what they were.
proof fn lemma_page_written(
    store: Store,
    annotations: Seq<AnnotationView>,
    page: u32,
    id: (u32, u16),
    low: u32,
)
    requires
        write_page(store, annotations, page, id) is Some,
        distinct_handles(annotations),
        handles_within(annotations, low),
        low <= store.max_id,
        page_ready(store, annotations, id, low),
    ensures
        ({
            let after = write_page(store, annotations, page, id).unwrap();
            &&& store.max_id <= after.max_id
            &&& page_saved(after, annotations, page, id, low)
            &&& forall|k: (u32, u16)|
                k != id && !handle_on_page(annotations, page, k) && k.0 <= store.max_id ==> (
                after.objects.contains_key(k) <==> store.objects.contains_key(k))
                    && after.objects[k] == store.objects[k]
        }),
{
    let height = height_for(store.objects, id);
    assert(handles_within(annotations, store.max_id));
    lemma_page_annotations_written(store, annotations, page, height);
    let (mid, refs) = write_annotations_of_page(store, annotations, page, height).unwrap();
    let after = write_page(store, annotations, page, id).unwrap();
    assert(!handle_on_page(annotations, page, id)) by {
        if handle_on_page(annotations, page, id) {
            let j = choose|j: int|
                0 <= j < annotations.len() && (#[trigger] annotations[j]).page == page
                    && annotations[j].object_id == Some(id);
            assert(is_handle(annotations, id));
        }
    }
    assert(mid.objects.contains_key(id) && mid.objects[id] == store.objects[id]);
    let entries = entries_of(store.objects, id);
    assert(chase(mid.objects, id, 0) == Some((id, Node::Dict(entries))));
    assert(after.objects == mid.objects.insert(id, Node::Dict(relinked(entries, refs))));
    assert(entries_of(after.objects, id) == relinked(entries, refs));
    assert(annotation_items(after.objects, relinked(entries, refs)) == refs);
    assert forall|m: int| 0 <= m < refs.len() implies (#[trigger] refs[m] matches Node::Reference(x) && (
    handle_on_page(annotations, page, x) || made_between(x, low, after.max_id)) && holds_free_text(
        after.objects,
        x,
    )) && same_at(mid.objects, after.objects, refs, m) by {
        let x = refs[m]->Reference_0;
        if handle_on_page(annotations, page, x) {
            let j = choose|j: int|
                0 <= j < annotations.len() && (#[trigger] annotations[j]).page == page
                    && annotations[j].object_id == Some(x);
            assert(is_handle(annotations, x));
        }
        assert(x != id);
    }
    lemma_keys_differ();
    assert(page_height(relinked(entries, refs)) == page_height(entries));
    assert(height == page_height(entries));
    assert forall|j: int|
        0 <= j < annotations.len() && (#[trigger] annotations[j]).page == page implies exists|m: int| #[trigger]
        written_at(after.objects, refs, m, annotations[j], height) by {
        let m = choose|m: int| #[trigger] written_at(mid.objects, refs, m, annotations[j], height);
        assert(same_at(mid.objects, after.objects, refs, m));
        assert(written_at(after.objects, refs, m, annotations[j], height));
    }
}

/// A page that is saved stays saved while another page is written.
proof fn lemma_page_stays_saved(
    store: Store,
    annotations: Seq<AnnotationView>,
    page: u32,
    id: (u32, u16),
    other_page: u32,
    other_id: (u32, u16),
    low: u32,
)
    requires
        write_page(store, annotations, other_page, other_id) is Some,
        distinct_handles(annotations),
        handles_within(annotations, low),
        low <= store.max_id,
        page_ready(store, annotations, other_id, low),
        page_saved(store, annotations, page, id, low),
        id.0 <= low,
        !is_handle(annotations, id),
        page != other_page,
        id != other_id,
    ensures
        page_saved(
            write_page(store, annotations, other_page, other_id).unwrap(),
            annotations,
            page,
            id,
            low,
        ),
{
    lemma_page_written(store, annotations, other_page, other_id, low);
    let after = write_page(store, annotations, other_page, other_id).unwrap();
    assert(!handle_on_page(annotations, other_page, id)) by {
        if handle_on_page(annotations, other_page, id) {
            let j = choose|j: int|
                0 <= j < annotations.len() && (#[trigger] annotations[j]).page == other_page
                    && annotations[j].object_id == Some(id);
            assert(is_handle(annotations, id));
        }
    }
    assert(after.objects[id] == store.objects[id]);
    let refs = annotation_items(store.objects, entries_of(store.objects, id));
    assert(annotation_items(after.objects, entries_of(after.objects, id)) == refs);
    assert forall|m: int| 0 <= m < refs.len() implies (#[trigger] refs[m] matches Node::Reference(x) && (
    handle_on_page(annotations, page, x) || made_between(x, low, after.max_id)) && holds_free_text(
        after.objects,
        x,
    )) && same_at(store.objects, after.objects, refs, m) by {
        let x = refs[m]->Reference_0;
        if handle_on_page(annotations, page, x) {
            let j = choose|j: int|
                0 <= j < annotations.len() && (#[trigger] annotations[j]).page == page
                    && annotations[j].object_id == Some(x);
            assert(is_handle(annotations, x));
            if handle_on_page(annotations, other_page, x) {
                let j2 = choose|j2: int|
                    0 <= j2 < annotations.len() && (#[trigger] annotations[j2]).page == other_page
                        && annotations[j2].object_id == Some(x);
                if j < j2 {
                    assert(annotations[j].object_id != annotations[j2].object_id);
                } else {
                    assert(annotations[j2].object_id != annotations[j].object_id);
                }
            }
        } else {
            if handle_on_page(annotations, other_page, x) {
                let j2 = choose|j2: int|
                    0 <= j2 < annotations.len() && (#[trigger] annotations[j2]).page == other_page
                        && annotations[j2].object_id == Some(x);
                assert(x.0 <= low);
            }
        }
        assert(x != other_id);
        assert(after.objects[x] == store.objects[x]);
    }
    let height = page_height(entries_of(store.objects, id));
    assert forall|j: int|
        0 <= j < annotations.len() && (#[trigger] annotations[j]).page == page implies exists|m: int| #[trigger]
        written_at(after.objects, refs, m, annotations[j], height) by {
        let m = choose|m: int| #[trigger] written_at(store.objects, refs, m, annotations[j], height);
        assert(same_at(store.objects, after.objects, refs, m));
        assert(written_at(after.objects, refs, m, annotations[j], height));
    }
}

/// What the writing of a document needs of it, for what is said here of the
/// outcome: no two annotations share a handle; every handle and every page
/// has a number that the document has given out; the pages are dictionaries,
/// each listed once; and no annotation has a page as its handle.
pub open spec fn ready_to_write(
    store: Store,
    annotations: Seq<AnnotationView>,
    pages: Seq<(u32, (u32, u16))>,
) -> bool {
    &&& distinct_handles(annotations)
    &&& handles_within(annotations, store.max_id)
    &&& forall|i: int|
        0 <= i < pages.len() ==> page_ready(store, annotations, (#[trigger] pages[i]).1, store.max_id)
    &&& forall|i: int, j: int|
        0 <= i < j < pages.len() ==> (#[trigger] pages[i]).0 != (#[trigger] pages[j]).0 && pages[i].1
            != pages[j].1
}

/// The object is none of the pages.
pub open spec fn no_page(pages: Seq<(u32, (u32, u16))>, id: (u32, u16)) -> bool {
    forall|i: int| 0 <= i < pages.len() ==> (#[trigger] pages[i]).1 != id
}

/// After the writing of a document every page is saved, and every object
/// that is no page and no handle is what it was.
pub proof fn lemma_pages_written(
    store: Store,
    annotations: Seq<AnnotationView>,
    pages: Seq<(u32, (u32, u16))>,
)
    requires
        ready_to_write(store, annotations, pages),
        write_pages(store, annotations, pages) is Some,
    ensures
        ({
            let after = write_pages(store, annotations, pages).unwrap();
            &&& store.max_id <= after.max_id
            &&& forall|i: int|
                0 <= i < pages.len() ==> page_saved(
                    after,
                    annotations,
                    (#[trigger] pages[i]).0,
                    pages[i].1,
                    store.max_id,
                )
            &&& forall|k: (u32, u16)|
                no_page(pages, k) && !is_handle(annotations, k) && k.0 <= store.max_id ==> (
                after.objects.contains_key(k) <==> store.objects.contains_key(k))
                    && after.objects[k] == store.objects[k]
        }),
    decreases pages.len(),
{
    reveal(write_pages);
    if pages.len() == 0 {
    } else {
        let rest = pages.drop_last();
        let last = pages.last();
        let n = pages.len() - 1;
        let low = store.max_id;
        assert(forall|i: int| 0 <= i < n ==> rest[i] == pages[i]);
        assert(ready_to_write(store, annotations, rest)) by {
            assert forall|i: int| 0 <= i < rest.len() implies page_ready(
                store,
                annotations,
                (#[trigger] rest[i]).1,
                store.max_id,
            ) by {
                assert(rest[i] == pages[i]);
            }
            assert forall|i: int, j: int| 0 <= i < j < rest.len() implies (#[trigger] rest[i]).0 != (
            #[trigger] rest[j]).0 && rest[i].1 != rest[j].1 by {
                assert(rest[i] == pages[i] && rest[j] == pages[j]);
            }
        }
        lemma_pages_written(store, annotations, rest);
        let before = write_pages(store, annotations, rest).unwrap();
        let after = write_pages(store, annotations, pages).unwrap();
        assert(after == write_page(before, annotations, last.0, last.1).unwrap());
        assert(pages[n] == last);
        assert(page_ready(store, annotations, last.1, low));
        assert(no_page(rest, last.1)) by {
            assert forall|i: int| 0 <= i < rest.len() implies (#[trigger] rest[i]).1 != last.1 by {
                assert(rest[i] == pages[i]);
            }
        }
        assert(page_ready(before, annotations, last.1, low));
        lemma_page_written(before, annotations, last.0, last.1, low);
        assert forall|i: int| 0 <= i < pages.len() implies page_saved(
            after,
            annotations,
            (#[trigger] pages[i]).0,
            pages[i].1,
            low,
        ) by {
            if i < n {
                assert(rest[i] == pages[i]);
                assert(page_ready(store, annotations, pages[i].1, low));
                lemma_page_stays_saved(
                    before,
                    annotations,
                    pages[i].0,
                    pages[i].1,
                    last.0,
                    last.1,
                    low,
                );
            }
        }
        assert forall|k: (u32, u16)|
            no_page(pages, k) && !is_handle(annotations, k) && k.0 <= store.max_id implies (
        after.objects.contains_key(k) <==> store.objects.contains_key(k)) && after.objects[k]
            == store.objects[k] by {
            assert(no_page(rest, k)) by {
                assert forall|i: int| 0 <= i < rest.len() implies (#[trigger] rest[i]).1 != k by {
                    assert(rest[i] == pages[i]);
                }
            }
            assert(pages[n].1 != k);
            assert(!handle_on_page(annotations, last.0, k)) by {
                if handle_on_page(annotations, last.0, k) {
                    let j = choose|j: int|
                        0 <= j < annotations.len() && (#[trigger] annotations[j]).page == last.0
                            && annotations[j].object_id == Some(k);
                    assert(is_handle(annotations, k));
                }
            }
        }
    }
}

/// Reading a list of references to free-text annotations gives one
/// annotation for each reference, with the reference as its handle.
proof fn lemma_references_read(
    objects: Map<(u32, u16), Node>,
    refs: Seq<Node>,
    page: u32,
    height: int,
    base: nat,
)
    requires
        forall|m: int|
            0 <= m < refs.len() ==> (#[trigger] refs[m] matches Node::Reference(id)
                && holds_free_text(objects, id)),
    ensures
        collect_annotations(objects, refs, page, height, base).len() == refs.len(),
        forall|m: int|
            0 <= m < refs.len() ==> (#[trigger] collect_annotations(
                objects,
                refs,
                page,
                height,
                base,
            )[m]).object_id == Some(refs[m]->Reference_0),
    decreases refs.len(),
{
    if refs.len() == 0 {
    } else {
        let rest = refs.drop_last();
        assert(forall|m: int| 0 <= m < rest.len() ==> rest[m] == refs[m]);
        lemma_references_read(objects, rest, page, height, base);
        let n = refs.len() - 1;
        assert(refs[n] == refs.last());
        let id = refs[n]->Reference_0;
        assert(holds_free_text(objects, id));
        assert(chase(objects, id, 0) == Some((id, objects[id])));
        let found = collect_annotations(objects, refs, page, height, base);
        let before = collect_annotations(objects, rest, page, height, base);
        let place = base + before.len();
        assert(annotation_of(objects, refs.last(), page, height, place) is Some);
        assert(found == before.push(
            annotation_of(objects, refs.last(), page, height, place).unwrap(),
        ));
        assert forall|m: int| 0 <= m < refs.len() implies (#[trigger] found[m]).object_id == Some(
            refs[m]->Reference_0,
        ) by {
            if m < n {
                assert(found[m] == before[m]);
            }
        }
    }
}

/// Handles are kept: after annotations were written into a document, reading
/// any page back gives as many annotations as stand on the page in memory,
/// and among them one for each handle of the page, under that handle. So no
/// annotation that had an object is given another one.
pub proof fn lemma_written_handles_read_back(
    store: Store,
    annotations: Seq<AnnotationView>,
    pages: Seq<(u32, (u32, u16))>,
    i: int,
    base: nat,
)
    requires
        ready_to_write(store, annotations, pages),
        write_pages(store, annotations, pages) is Some,
        0 <= i < pages.len(),
    ensures
        ({
            let after = write_pages(store, annotations, pages).unwrap();
            let read = page_annotations(after.objects, pages[i].0, pages[i].1, base);
            &&& read is Some
            &&& read.unwrap().len() == count_on_page(annotations, pages[i].0)
            &&& forall|j: int|
                0 <= j < annotations.len() && (#[trigger] annotations[j]).page == pages[i].0
                    && annotations[j].object_id is Some ==> exists|m: int|
                    0 <= m < read.unwrap().len() && (#[trigger] read.unwrap()[m]).object_id
                        == annotations[j].object_id
        }),
{
    lemma_pages_written(store, annotations, pages);
    let after = write_pages(store, annotations, pages).unwrap();
    let page = pages[i].0;
    let id = pages[i].1;
    assert(page_saved(after, annotations, page, id, store.max_id));
    let entries = entries_of(after.objects, id);
    let refs = annotation_items(after.objects, entries);
    assert(chase(after.objects, id, 0) == Some((id, after.objects[id])));
    let height = page_height(entries);
    lemma_references_read(after.objects, refs, page, height, base);
    let read = page_annotations(after.objects, page, id, base);
    assert(read == Some(collect_annotations(after.objects, refs, page, height, base)));
    assert forall|j: int|
        0 <= j < annotations.len() && (#[trigger] annotations[j]).page == page
            && annotations[j].object_id is Some implies exists|m: int|
        0 <= m < read.unwrap().len() && (#[trigger] read.unwrap()[m]).object_id
            == annotations[j].object_id by {
        let m = choose|m: int|
            0 <= m < refs.len() && #[trigger] refs[m] == Node::Reference(
                annotations[j].object_id.unwrap(),
            );
        assert(read.unwrap()[m].object_id == Some(refs[m]->Reference_0));
    }
}

/// What was taken away is no longer listed: after annotations were written
/// into a document, no page lists a reference to an object that the document
/// had before and that is the handle of none of the annotations.
pub proof fn lemma_dropped_handle_unlisted(
    store: Store,
    annotations: Seq<AnnotationView>,
    pages: Seq<(u32, (u32, u16))>,
    i: int,
    handle: (u32, u16),
)
    requires
        ready_to_write(store, annotations, pages),
        write_pages(store, annotations, pages) is Some,
        0 <= i < pages.len(),
        !is_handle(annotations, handle),
        handle.0 <= store.max_id,
    ensures
        ({
            let after = write_pages(store, annotations, pages).unwrap();
            let listed = annotation_items(after.objects, entries_of(after.objects, pages[i].1));
            forall|m: int| 0 <= m < listed.len() ==> #[trigger] listed[m] != Node::Reference(handle)
        }),
{
    lemma_pages_written(store, annotations, pages);
    let after = write_pages(store, annotations, pages).unwrap();
    assert(page_saved(after, annotations, pages[i].0, pages[i].1, store.max_id));
    let listed = annotation_items(after.objects, entries_of(after.objects, pages[i].1));
    assert forall|m: int| 0 <= m < listed.len() implies #[trigger] listed[m] != Node::Reference(
        handle,
    ) by {
        let x = listed[m]->Reference_0;
        if handle_on_page(annotations, pages[i].0, x) {
            let j = choose|j: int|
                0 <= j < annotations.len() && (#[trigger] annotations[j]).page == pages[i].0
                    && annotations[j].object_id == Some(x);
            assert(is_handle(annotations, x));
        }
    }
}

/// A page on which no annotation stands has no annotation list once the
/// annotations were written.
pub proof fn lemma_empty_page_has_no_list(
    store: Store,
    annotations: Seq<AnnotationView>,
    pages: Seq<(u32, (u32, u16))>,
    i: int,
)
    requires
        ready_to_write(store, annotations, pages),
        write_pages(store, annotations, pages) is Some,
        0 <= i < pages.len(),
        count_on_page(annotations, pages[i].0) == 0,
    ensures
        !entries_of(write_pages(store, annotations, pages).unwrap().objects, pages[i].1).contains_key(
            key_annots(),
        ),
{
    lemma_pages_written(store, annotations, pages);
    let after = write_pages(store, annotations, pages).unwrap();
    assert(page_saved(after, annotations, pages[i].0, pages[i].1, store.max_id));
}

/// Exactly as many objects are made anew as annotations without a handle are
/// written: the highest number given out grows by one for each.
pub proof fn lemma_new_objects_counted(
    store: Store,
    annotations: Seq<AnnotationView>,
    page: u32,
    height: int,
)
    requires
        write_annotations_of_page(store, annotations, page, height) is Some,
    ensures
        write_annotations_of_page(store, annotations, page, height).unwrap().0.max_id
            == store.max_id + new_on_page(annotations, page),
    decreases annotations.len(),
{
    reveal(write_annotations_of_page);
    if annotations.len() > 0 {
        lemma_new_objects_counted(store, annotations.drop_last(), page, height);
    }
}

/// How many annotations of the list stand on the page and have no handle.
pub open spec fn new_on_page(annotations: Seq<AnnotationView>, page: u32) -> nat
    decreases annotations.len(),
{
    if annotations.len() == 0 {
        0
    } else {
        new_on_page(annotations.drop_last(), page) + if annotations.last().page == page
            && annotations.last().object_id is None {
            1nat
        } else {
            0nat
        }
    }
}

/// What is written is what the annotation says: after annotations were
/// written into a document, the list of a page has, for each annotation that
/// stands on the page, a reference to the dictionary that is built from that
/// annotation, and for an annotation with a handle that reference is the
/// handle. So the object behind a handle is overwritten in place.
pub proof fn lemma_written_objects_hold_annotations(
    store: Store,
    annotations: Seq<AnnotationView>,
    pages: Seq<(u32, (u32, u16))>,
    i: int,
    j: int,
)
    requires
        ready_to_write(store, annotations, pages),
        write_pages(store, annotations, pages) is Some,
        0 <= i < pages.len(),
        0 <= j < annotations.len(),
        annotations[j].page == pages[i].0,
    ensures
        ({
            let after = write_pages(store, annotations, pages).unwrap();
            let entries = entries_of(after.objects, pages[i].1);
            let listed = annotation_items(after.objects, entries);
            &&& listed.len() == count_on_page(annotations, pages[i].0)
            &&& exists|m: int| #[trigger]
                written_at(after.objects, listed, m, annotations[j], page_height(entries))
        }),
{
    lemma_pages_written(store, annotations, pages);
    let after = write_pages(store, annotations, pages).unwrap();
    assert(page_saved(after, annotations, pages[i].0, pages[i].1, store.max_id));
}

/// How many annotations of the list stand on the pages.
pub open spec fn count_on_pages(
    annotations: Seq<AnnotationView>,
    pages: Seq<(u32, (u32, u16))>,
) -> nat
    decreases pages.len(),
{
    if pages.len() == 0 {
        0
    } else {
        count_on_pages(annotations, pages.drop_last()) + count_on_page(annotations, pages.last().0)
    }
}

/// How many annotations of the list stand on the pages and have no handle.
pub open spec fn new_on_pages(annotations: Seq<AnnotationView>, pages: Seq<(u32, (u32, u16))>) -> nat
    decreases pages.len(),
{
    if pages.len() == 0 {
        0
    } else {
        new_on_pages(annotations, pages.drop_last()) + new_on_page(annotations, pages.last().0)
    }
}

/// In the whole document exactly as many objects are made anew as
/// annotations without a handle are written: the highest number given out
/// grows by one for each. Where every annotation has a handle, no object is
/// made.
pub proof fn lemma_new_objects_counted_in_document(
    store: Store,
    annotations: Seq<AnnotationView>,
    pages: Seq<(u32, (u32, u16))>,
)
    requires
        write_pages(store, annotations, pages) is Some,
    ensures
        write_pages(store, annotations, pages).unwrap().max_id == store.max_id + new_on_pages(
            annotations,
            pages,
        ),
    decreases pages.len(),
{
    reveal(write_pages);
    if pages.len() > 0 {
        lemma_new_objects_counted_in_document(store, annotations, pages.drop_last());
        let before = write_pages(store, annotations, pages.drop_last()).unwrap();
        lemma_new_objects_counted(
            before,
            annotations,
            pages.last().0,
            height_for(before.objects, pages.last().1),
        );
    }
}

/// The list holds an annotation under each handle that stands on one of the
/// first `n` pages.
pub open spec fn handles_found(
    found: Seq<AnnotationView>,
    annotations: Seq<AnnotationView>,
    pages: Seq<(u32, (u32, u16))>,
    n: int,
) -> bool {
    forall|j: int, i: int|
        0 <= j < annotations.len() && 0 <= i < n && (#[trigger] annotations[j]).page == (
        #[trigger] pages[i]).0 && annotations[j].object_id is Some ==> exists|m: int|
            0 <= m < found.len() && (#[trigger] found[m]).object_id == annotations[j].object_id
}

/// Reading the first `n` pages back after the writing.
proof fn lemma_pages_read_back(
    store: Store,
    annotations: Seq<AnnotationView>,
    pages: Seq<(u32, (u32, u16))>,
    n: int,
)
    requires
        ready_to_write(store, annotations, pages),
        write_pages(store, annotations, pages) is Some,
        0 <= n <= pages.len(),
    ensures
        ({
            let after = write_pages(store, annotations, pages).unwrap();
            let read = document_annotations(after.objects, pages.subrange(0, n));
            &&& read is Some
            &&& read.unwrap().len() == count_on_pages(annotations, pages.subrange(0, n))
            &&& handles_found(read.unwrap(), annotations, pages, n)
        }),
    decreases n,
{
    let after = write_pages(store, annotations, pages).unwrap();
    if n > 0 {
        lemma_pages_read_back(store, annotations, pages, n - 1);
        let part = pages.subrange(0, n);
        assert(part.drop_last() =~= pages.subrange(0, n - 1));
        assert(part.last() == pages[n - 1]);
        let before = document_annotations(after.objects, pages.subrange(0, n - 1)).unwrap();
        lemma_written_handles_read_back(store, annotations, pages, n - 1, before.len());
        let here = page_annotations(
            after.objects,
            pages[n - 1].0,
            pages[n - 1].1,
            before.len(),
        ).unwrap();
        let read = document_annotations(after.objects, part).unwrap();
        assert(read == before + here);
        assert forall|j: int, i: int|
            0 <= j < annotations.len() && 0 <= i < n && (#[trigger] annotations[j]).page == (
            #[trigger] pages[i]).0 && annotations[j].object_id is Some implies exists|m: int|
            0 <= m < read.len() && (#[trigger] read[m]).object_id == annotations[j].object_id by {
            if i < n - 1 {
                let m = choose|m: int|
                    0 <= m < before.len() && (#[trigger] before[m]).object_id
                        == annotations[j].object_id;
                assert(read[m] == before[m]);
            } else {
                let m = choose|m: int|
                    0 <= m < here.len() && (#[trigger] here[m]).object_id
                        == annotations[j].object_id;
                assert(read[before.len() + m] == here[m]);
            }
        }
    }
}

/// Handles are kept in the whole document: after annotations were written
/// into a document, reading its pages back gives as many annotations as
/// stand on its pages in memory, and among them one under each handle that
/// stands on one of the pages. With `lemma_new_objects_counted_in_document`:
/// where every annotation has a handle, all come back under their handles
/// and no object is made.
pub proof fn lemma_written_document_read_back(
    store: Store,
    annotations: Seq<AnnotationView>,
    pages: Seq<(u32, (u32, u16))>,
)
    requires
        ready_to_write(store, annotations, pages),
        write_pages(store, annotations, pages) is Some,
    ensures
        ({
            let after = write_pages(store, annotations, pages).unwrap();
            let read = document_annotations(after.objects, pages);
            &&& read is Some
            &&& read.unwrap().len() == count_on_pages(annotations, pages)
            &&& handles_found(read.unwrap(), annotations, pages, pages.len() as int)
        }),
{
    lemma_pages_read_back(store, annotations, pages, pages.len() as int);
    assert(pages.subrange(0, pages.len() as int) =~= pages);
}

/// Tells whether some annotation of the list has the handle.
fn handle_in_use(annotations: &Vec<AnnotationData>, id: (u32, u16)) -> (r: bool)
    ensures
        r == is_handle(views(annotations@), id),
{
    let ghost all = views(annotations@);
    let mut j: usize = 0;
    while j < annotations.len()
        invariant
            0 <= j <= annotations@.len(),
            all == views(annotations@),
            forall|k: int| 0 <= k < j ==> (#[trigger] all[k]).object_id != Some(id),
        decreases annotations.len() - j,
    {
        assert(all[j as int] == annotations@[j as int]@);
        if annotations[j].object_id == Some(id) {
            return true;
        }
        j = j + 1;
    }
    false
}

/// Tells whether the handles of the list are all different and all have
/// numbers up to `limit`.
fn handles_in_order(annotations: &Vec<AnnotationData>, limit: u32) -> (r: bool)
    ensures
        r == (distinct_handles(views(annotations@)) && handles_within(views(annotations@), limit)),
{
    let ghost all = views(annotations@);
    let mut j: usize = 0;
    while j < annotations.len()
        invariant
            0 <= j <= annotations@.len(),
            all == views(annotations@),
            forall|k: int|
                0 <= k < j ==> ((#[trigger] all[k]).object_id matches Some(id) ==> id.0 <= limit),
            forall|a: int, b: int|
                0 <= a < b < j && (#[trigger] all[a]).object_id is Some ==> all[a].object_id != (
                #[trigger] all[b]).object_id,
        decreases annotations.len() - j,
    {
        assert(all[j as int] == annotations@[j as int]@);
        if let Some(id) = annotations[j].object_id {
            if id.0 > limit {
                return false;
            }
            let mut i: usize = 0;
            while i < j
                invariant
                    0 <= i <= j < annotations@.len(),
                    all == views(annotations@),
                    all[j as int].object_id == Some(id),
                    forall|a: int| 0 <= a < i ==> (#[trigger] all[a]).object_id != Some(id),
                decreases j - i,
            {
                assert(all[i as int] == annotations@[i as int]@);
                if annotations[i].object_id == Some(id) {
                    assert(all[i as int].object_id == all[j as int].object_id);
                    return false;
                }
                i = i + 1;
            }
        }
        j = j + 1;
    }
    true
}

/// Tells whether a document and annotations are such that what is said here
/// of the writing holds of them: see `ready_to_write`.
pub fn ready_for_writing(doc: &lopdf::Document, annotations: &Vec<AnnotationData>) -> (r: bool)
    ensures
        r == ready_to_write(store_of(*doc), views(annotations@), doc_pages(*doc)),
{
    let limit = max_id(doc);
    if !handles_in_order(annotations, limit) {
        return false;
    }
    let pages = page_list(doc);
    let ghost store = store_of(*doc);
    let ghost all = views(annotations@);
    let mut i: usize = 0;
    while i < pages.len()
        invariant
            0 <= i <= pages@.len(),
            pages@ == doc_pages(*doc),
            store == store_of(*doc),
            limit == store.max_id,
            all == views(annotations@),
            forall|a: int, b: int| 0 <= a < b < pages@.len() ==> pages@[a].0 < pages@[b].0,
            forall|k: int|
                0 <= k < i ==> page_ready(store, all, (#[trigger] pages@[k]).1, store.max_id),
            forall|a: int, b: int|
                0 <= a < b < i ==> (#[trigger] pages@[a]).1 != (#[trigger] pages@[b]).1,
        decreases pages.len() - i,
    {
        let id = pages[i].1;
        let is_dictionary = match object_at(doc, id) {
            Some(obj) => as_dictionary(obj).is_some(),
            None => false,
        };
        if !is_dictionary || id.0 > limit || handle_in_use(annotations, id) {
            assert(!page_ready(store, all, pages@[i as int].1, store.max_id));
            return false;
        }
        let mut k: usize = 0;
        while k < i
            invariant
                0 <= k <= i < pages@.len(),
                pages@ == doc_pages(*doc),
                id == pages@[i as int].1,
                forall|a: int| 0 <= a < k ==> (#[trigger] pages@[a]).1 != id,
            decreases i - k,
        {
            let other = pages[k].1;
            if other.0 == id.0 && other.1 == id.1 {
                assert(doc_pages(*doc)[k as int].1 == doc_pages(*doc)[i as int].1);
                return false;
            }
            k = k + 1;
        }
        i = i + 1;
    }
    true
}

} // verus!
