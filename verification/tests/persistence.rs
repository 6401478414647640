use lopdf::{Dictionary, Document, Object};
use margium::annotations::{
    annotations_of_document, load_annotations, math_body, AnnotationData, DocumentError,
};
use margium::roundtrip::ready_for_writing;
use margium::writer::{save_document, save_pdf_with_annotations, write_annotations};

fn name(text: &str) -> Object {
    Object::Name(text.as_bytes().to_vec())
}

fn media_box(height: i64) -> Object {
    Object::Array(vec![
        Object::Integer(0),
        Object::Integer(0),
        Object::Integer(595),
        Object::Integer(height),
    ])
}

fn free_text(x: i64, top: i64, content: &str, style: &str) -> Dictionary {
    let mut annotation = Dictionary::new();
    annotation.set("Type", name("Annot"));
    annotation.set("Subtype", name("FreeText"));
    annotation.set("DA", Object::string_literal(style));
    annotation.set("Contents", Object::string_literal(content));
    annotation.set(
        "Rect",
        Object::Array(vec![
            Object::Integer(x),
            Object::Integer(top - 21),
            Object::Integer(x + 200),
            Object::Integer(top),
        ]),
    );
    annotation
}

/// A document of three pages, 842 units high, with one free-text annotation
/// on the second page. Gives the document and the handle of the annotation.
fn three_pages() -> (Document, (u32, u16)) {
    let mut doc = Document::with_version("1.5");
    let pages_id = doc.new_object_id();
    let existing = doc.add_object(free_text(100, 700, "old note", "0 0 0 rg /Helv 12 Tf"));
    let mut kids = Vec::new();
    for index in 0..3 {
        let mut page = Dictionary::new();
        page.set("Type", name("Page"));
        page.set("Parent", Object::Reference(pages_id));
        page.set("MediaBox", media_box(842));
        if index == 1 {
            page.set("Annots", Object::Array(vec![Object::Reference(existing)]));
        }
        kids.push(Object::Reference(doc.add_object(page)));
    }
    let mut pages = Dictionary::new();
    pages.set("Type", name("Pages"));
    pages.set("Count", Object::Integer(3));
    pages.set("Kids", Object::Array(kids));
    doc.objects.insert(pages_id, Object::Dictionary(pages));
    let mut catalog = Dictionary::new();
    catalog.set("Type", name("Catalog"));
    catalog.set("Pages", Object::Reference(pages_id));
    let catalog_id = doc.add_object(catalog);
    doc.trailer.set("Root", Object::Reference(catalog_id));
    (doc, existing)
}

fn bytes_of(doc: &mut Document) -> Vec<u8> {
    let mut out = Vec::new();
    doc.save_to(&mut out).unwrap();
    out
}

fn annotation_refs(doc: &Document, page: u32) -> Option<Vec<(u32, u16)>> {
    let pages = doc.get_pages();
    let dict = doc.get_object(pages[&page]).unwrap().as_dict().unwrap();
    match dict.get(b"Annots") {
        Ok(list) => Some(
            list.as_array()
                .unwrap()
                .iter()
                .map(|item| item.as_reference().unwrap())
                .collect(),
        ),
        Err(_) => None,
    }
}

#[test]
fn load_reads_existing_annotation() {
    let (mut doc, existing) = three_pages();
    let loaded = load_annotations(&bytes_of(&mut doc)).unwrap();
    assert_eq!(loaded.len(), 1);
    let a = &loaded[0];
    assert_eq!(a.page, 2);
    assert_eq!(a.x, 100_000);
    assert_eq!(a.y, 142_000);
    assert_eq!(a.content, "old note");
    assert_eq!(a.font_size, Some(12_000));
    assert_eq!(a.id, "0");
    assert_eq!(a.object_id, Some(existing));
}

#[test]
fn load_rejects_bytes_that_are_no_document() {
    match load_annotations(b"not a pdf") {
        Err(DocumentError::OpenFailed(message)) => assert!(!message.is_empty()),
        other => panic!("unexpected outcome: {:?}", other),
    }
}

#[test]
fn save_overwrites_existing_and_allocates_one_new_object() {
    let (mut doc, existing) = three_pages();
    let before = bytes_of(&mut doc);
    let objects_before = Document::load_mem(&before).unwrap().objects.len();
    let mut annotations = load_annotations(&before).unwrap();
    annotations.push(AnnotationData {
        page: 3,
        x: 50_000,
        y: 60_000,
        content: "new note".to_string(),
        font_size: None,
        id: "n1".to_string(),
        object_id: None,
    });
    let after = save_pdf_with_annotations(&before, &annotations).unwrap();
    let saved = Document::load_mem(&after).unwrap();
    assert_eq!(saved.objects.len(), objects_before + 1);
    assert_eq!(annotation_refs(&saved, 1), None);
    assert_eq!(annotation_refs(&saved, 2), Some(vec![existing]));
    let third = annotation_refs(&saved, 3).unwrap();
    assert_eq!(third.len(), 1);
    assert!(third[0] != existing);
    let reloaded = load_annotations(&after).unwrap();
    assert_eq!(reloaded.len(), 2);
    assert_eq!(reloaded[0].object_id, Some(existing));
    assert_eq!(reloaded[0].content, "old note");
    assert_eq!(reloaded[0].x, 100_000);
    assert_eq!(reloaded[0].y, 142_000);
    assert_eq!(reloaded[0].font_size, Some(12_000));
    assert_eq!(reloaded[1].object_id, Some(third[0]));
    assert_eq!(reloaded[1].page, 3);
    assert_eq!(reloaded[1].x, 50_000);
    assert_eq!(reloaded[1].y, 60_000);
    assert_eq!(reloaded[1].content, "new note");
    assert_eq!(reloaded[1].font_size, Some(14_000));
}

fn page_dictionary(doc: &mut Document, page: u32) -> &mut Dictionary {
    let id = doc.get_pages()[&page];
    doc.get_object_mut(id).unwrap().as_dict_mut().unwrap()
}

fn user_note(page: u32, x: i64, y: i64, content: &str) -> AnnotationData {
    AnnotationData {
        page,
        x,
        y,
        content: content.to_string(),
        font_size: None,
        id: "n".to_string(),
        object_id: None,
    }
}

#[test]
fn saving_unchanged_annotations_keeps_their_objects() {
    let (mut doc, existing) = three_pages();
    let second = doc.add_object(free_text(10, 500, "second", "0 0 0 rg /Helv 9 Tf"));
    page_dictionary(&mut doc, 2).set(
        "Annots",
        Object::Array(vec![Object::Reference(existing), Object::Reference(second)]),
    );
    let before = bytes_of(&mut doc);
    let loaded = load_annotations(&before).unwrap();
    let handles: Vec<Option<(u32, u16)>> = loaded.iter().map(|a| a.object_id).collect();
    assert_eq!(handles, vec![Some(existing), Some(second)]);
    let after = save_pdf_with_annotations(&before, &loaded).unwrap();
    let saved = Document::load_mem(&after).unwrap();
    assert_eq!(saved.objects.len(), Document::load_mem(&before).unwrap().objects.len());
    assert_eq!(annotation_refs(&saved, 2), Some(vec![existing, second]));
    let reloaded = load_annotations(&after).unwrap();
    assert_eq!(reloaded.len(), 2);
    for (old, new) in loaded.iter().zip(reloaded.iter()) {
        assert_eq!(old.object_id, new.object_id);
        assert_eq!(old.page, new.page);
        assert_eq!(old.x, new.x);
        assert_eq!(old.y, new.y);
        assert_eq!(old.content, new.content);
        assert_eq!(old.font_size, new.font_size);
    }
    let again = save_pdf_with_annotations(&after, &reloaded).unwrap();
    assert_eq!(
        Document::load_mem(&again).unwrap().objects.len(),
        Document::load_mem(&after).unwrap().objects.len()
    );
}

#[test]
fn deleted_annotation_is_no_longer_referenced() {
    let (mut doc, existing) = three_pages();
    let second = doc.add_object(free_text(10, 500, "second", "0 0 0 rg /Helv 9 Tf"));
    page_dictionary(&mut doc, 2).set(
        "Annots",
        Object::Array(vec![Object::Reference(existing), Object::Reference(second)]),
    );
    let before = bytes_of(&mut doc);
    let mut annotations = load_annotations(&before).unwrap();
    annotations.remove(0);
    let after = save_pdf_with_annotations(&before, &annotations).unwrap();
    let saved = Document::load_mem(&after).unwrap();
    assert_eq!(annotation_refs(&saved, 2), Some(vec![second]));
    let reloaded = load_annotations(&after).unwrap();
    assert_eq!(reloaded.len(), 1);
    assert_eq!(reloaded[0].object_id, Some(second));
}

#[test]
fn page_without_annotations_loses_its_list() {
    let (mut doc, _) = three_pages();
    let before = bytes_of(&mut doc);
    let after = save_pdf_with_annotations(&before, &Vec::new()).unwrap();
    let saved = Document::load_mem(&after).unwrap();
    assert_eq!(annotation_refs(&saved, 1), None);
    assert_eq!(annotation_refs(&saved, 2), None);
    assert_eq!(annotation_refs(&saved, 3), None);
    assert!(load_annotations(&after).unwrap().is_empty());
}

#[test]
fn written_annotation_has_subtype_style_content_and_rectangle() {
    let (mut doc, _) = three_pages();
    let before = bytes_of(&mut doc);
    let mut note = user_note(1, 50_500, 60_250, "caf\u{e9} $x$");
    note.font_size = Some(12_000);
    let after = save_pdf_with_annotations(&before, &vec![note]).unwrap();
    let saved = Document::load_mem(&after).unwrap();
    let id = annotation_refs(&saved, 1).unwrap()[0];
    let written = saved.get_object(id).unwrap().as_dict().unwrap();
    assert_eq!(written.get(b"Type").unwrap().as_name().unwrap(), b"Annot");
    assert_eq!(written.get(b"Subtype").unwrap().as_name().unwrap(), b"FreeText");
    assert_eq!(written.get(b"DA").unwrap().as_str().unwrap(), b"0 0 0 rg /Helv 12 Tf");
    assert_eq!(
        written.get(b"Contents").unwrap().as_str().unwrap(),
        "caf\u{e9} $x$".as_bytes()
    );
    let rect: Vec<f32> = written
        .get(b"Rect")
        .unwrap()
        .as_array()
        .unwrap()
        .iter()
        .map(|edge| edge.as_float().unwrap())
        .collect();
    // top = 842 - 60.25, bottom = top - 1.5 * 12, right = left + 200
    assert_eq!(rect, vec![50.5, 763.75, 250.5, 781.75]);
}

#[test]
fn default_font_size_is_fourteen_units() {
    let (mut doc, _) = three_pages();
    let before = bytes_of(&mut doc);
    let after = save_pdf_with_annotations(&before, &vec![user_note(1, 0, 0, "n")]).unwrap();
    let saved = Document::load_mem(&after).unwrap();
    let id = annotation_refs(&saved, 1).unwrap()[0];
    let written = saved.get_object(id).unwrap().as_dict().unwrap();
    assert_eq!(written.get(b"DA").unwrap().as_str().unwrap(), b"0 0 0 rg /Helv 14 Tf");
    let rect: Vec<f32> = written
        .get(b"Rect")
        .unwrap()
        .as_array()
        .unwrap()
        .iter()
        .map(|edge| edge.as_float().unwrap())
        .collect();
    assert_eq!(rect, vec![0.0, 821.0, 200.0, 842.0]);
}

#[test]
fn annotation_of_a_page_that_is_not_there_is_not_written() {
    let (mut doc, _) = three_pages();
    let before = bytes_of(&mut doc);
    let count = Document::load_mem(&before).unwrap().objects.len();
    let after = save_pdf_with_annotations(&before, &vec![user_note(4, 0, 0, "nowhere")]).unwrap();
    let saved = Document::load_mem(&after).unwrap();
    assert_eq!(saved.objects.len(), count);
    assert!(load_annotations(&after).unwrap().is_empty());
}

#[test]
fn real_numbers_are_read_to_the_thousandth() {
    let (mut doc, _) = three_pages();
    let mut annotation = free_text(0, 0, "reals", "0 0 0 rg /Helv 10.5 Tf");
    annotation.set(
        "Rect",
        Object::Array(vec![
            Object::Real(100.5),
            Object::Real(678.25),
            Object::Real(300.5),
            Object::Real(700.125),
        ]),
    );
    let id = doc.add_object(annotation);
    page_dictionary(&mut doc, 1).set("Annots", Object::Array(vec![Object::Reference(id)]));
    page_dictionary(&mut doc, 1).set(
        "MediaBox",
        Object::Array(vec![
            Object::Real(0.0),
            Object::Real(10.5),
            Object::Real(612.0),
            Object::Real(802.5),
        ]),
    );
    let loaded = annotations_of_document(&doc).unwrap();
    assert_eq!(loaded[0].page, 1);
    assert_eq!(loaded[0].x, 100_500);
    // the page is 802.5 - 10.5 = 792 units high
    assert_eq!(loaded[0].y, 792_000 - 700_125);
    assert_eq!(loaded[0].font_size, Some(10_500));
    assert_eq!(loaded[0].object_id, Some(id));
}

#[test]
fn page_without_media_box_is_842_units_high() {
    let (mut doc, _) = three_pages();
    page_dictionary(&mut doc, 2).remove(b"MediaBox");
    let loaded = annotations_of_document(&doc).unwrap();
    assert_eq!(loaded[0].y, 842_000 - 700_000);
    page_dictionary(&mut doc, 2).set("MediaBox", Object::Array(vec![Object::Integer(0)]));
    let loaded = annotations_of_document(&doc).unwrap();
    assert_eq!(loaded[0].y, 842_000 - 700_000);
}

#[test]
fn annotation_that_stands_in_the_list_itself_has_no_handle() {
    let (mut doc, existing) = three_pages();
    let inline = free_text(20, 300, "inline", "0 0 0 rg /Helv 8 Tf");
    page_dictionary(&mut doc, 2).set(
        "Annots",
        Object::Array(vec![Object::Dictionary(inline), Object::Reference(existing)]),
    );
    let loaded = annotations_of_document(&doc).unwrap();
    assert_eq!(loaded.len(), 2);
    assert_eq!(loaded[0].content, "inline");
    assert_eq!(loaded[0].object_id, None);
    assert_eq!(loaded[1].object_id, Some(existing));
    let count = doc.objects.len();
    write_annotations(&mut doc, &loaded).unwrap();
    assert_eq!(doc.objects.len(), count + 1);
    let refs = annotation_refs(&doc, 2).unwrap();
    assert_eq!(refs.len(), 2);
    assert_eq!(refs[1], existing);
    let reloaded = annotations_of_document(&doc).unwrap();
    assert_eq!(reloaded[0].object_id, Some(refs[0]));
    assert_eq!(reloaded[0].content, "inline");
}

#[test]
fn annotation_list_may_stand_behind_a_reference() {
    let (mut doc, existing) = three_pages();
    let list = doc.add_object(Object::Array(vec![Object::Reference(existing)]));
    page_dictionary(&mut doc, 2).set("Annots", Object::Reference(list));
    let loaded = annotations_of_document(&doc).unwrap();
    assert_eq!(loaded.len(), 1);
    assert_eq!(loaded[0].object_id, Some(existing));
}

#[test]
fn handle_may_lead_through_references() {
    let (mut doc, existing) = three_pages();
    let hop = doc.add_object(Object::Reference(existing));
    page_dictionary(&mut doc, 2).set("Annots", Object::Array(vec![Object::Reference(hop)]));
    let loaded = annotations_of_document(&doc).unwrap();
    assert_eq!(loaded.len(), 1);
    assert_eq!(loaded[0].content, "old note");
    assert_eq!(loaded[0].object_id, Some(hop));
}

#[test]
fn malformed_annotations_are_passed_over() {
    let (mut doc, existing) = three_pages();
    let mut link = free_text(1, 2, "link", "");
    link.set("Subtype", name("Link"));
    let mut no_rect = free_text(1, 2, "no rect", "");
    no_rect.remove(b"Rect");
    let mut short_rect = free_text(1, 2, "short rect", "");
    short_rect.set("Rect", Object::Array(vec![Object::Integer(1), Object::Integer(2)]));
    let mut no_content = free_text(1, 2, "", "");
    no_content.remove(b"Contents");
    let mut no_subtype = free_text(1, 2, "no subtype", "");
    no_subtype.remove(b"Subtype");
    let mut items = vec![Object::Integer(5), Object::Reference((9_999, 0)), Object::Null];
    for broken in [link, no_rect, short_rect, no_content, no_subtype] {
        items.push(Object::Reference(doc.add_object(broken)));
    }
    items.push(Object::Reference(existing));
    page_dictionary(&mut doc, 2).set("Annots", Object::Array(items));
    let loaded = annotations_of_document(&doc).unwrap();
    assert_eq!(loaded.len(), 1);
    assert_eq!(loaded[0].object_id, Some(existing));
}

#[test]
fn odd_entries_read_as_zero_or_nothing() {
    let (mut doc, _) = three_pages();
    let mut odd = free_text(0, 0, "", "no marker here");
    odd.set("Contents", Object::Integer(3));
    odd.set(
        "Rect",
        Object::Array(vec![name("left"), Object::Null, Object::Null, Object::Integer(2_000_000_000)]),
    );
    let id = doc.add_object(odd);
    page_dictionary(&mut doc, 1).set("Annots", Object::Array(vec![Object::Reference(id)]));
    let loaded = annotations_of_document(&doc).unwrap();
    assert_eq!(loaded[0].x, 0);
    assert_eq!(loaded[0].y, 842_000);
    assert_eq!(loaded[0].content, "");
    assert_eq!(loaded[0].font_size, None);
}

#[test]
fn content_that_is_no_utf8_is_read_with_replacements() {
    let (mut doc, _) = three_pages();
    let mut annotation = free_text(0, 0, "", "");
    annotation.set("Contents", Object::string_literal(vec![0xff, b'a', 0xc3, 0xa9]));
    let id = doc.add_object(annotation);
    page_dictionary(&mut doc, 1).set("Annots", Object::Array(vec![Object::Reference(id)]));
    let loaded = annotations_of_document(&doc).unwrap();
    assert_eq!(loaded[0].content, "\u{fffd}a\u{e9}");
}

#[test]
fn page_that_is_no_dictionary_fails_the_reading() {
    let (mut doc, _) = three_pages();
    let id = doc.get_pages()[&2];
    doc.objects.insert(id, Object::Integer(1));
    match annotations_of_document(&doc) {
        Err(DocumentError::OpenFailed(message)) => assert!(!message.is_empty()),
        other => panic!("unexpected outcome: {:?}", other),
    }
}

#[test]
fn save_rejects_bytes_that_are_no_document() {
    match save_pdf_with_annotations(b"%PDF-nothing", &Vec::new()) {
        Err(DocumentError::OpenFailed(message)) => assert!(!message.is_empty()),
        other => panic!("unexpected outcome: {:?}", other.map(|bytes| bytes.len())),
    }
}

#[test]
fn writing_fails_when_the_object_numbers_run_out() {
    let (mut doc, existing) = three_pages();
    doc.max_id = u32::MAX;
    let mut annotations = annotations_of_document(&doc).unwrap();
    // what has an object can still be written
    assert!(write_annotations(&mut doc, &annotations).is_ok());
    assert_eq!(annotation_refs(&doc, 2), Some(vec![existing]));
    annotations.push(user_note(3, 0, 0, "one too many"));
    match write_annotations(&mut doc, &annotations) {
        Err(DocumentError::SaveFailed(message)) => {
            assert_eq!(message, "the document has no object number left")
        }
        other => panic!("unexpected outcome: {:?}", other),
    }
}

#[test]
fn new_objects_take_the_next_numbers() {
    let (mut doc, _) = three_pages();
    let before = doc.max_id;
    let notes = vec![user_note(1, 0, 0, "a"), user_note(3, 0, 0, "b"), user_note(1, 0, 0, "c")];
    write_annotations(&mut doc, &notes).unwrap();
    assert_eq!(doc.max_id, before + 3);
    assert_eq!(annotation_refs(&doc, 1), Some(vec![(before + 1, 0), (before + 2, 0)]));
    assert_eq!(annotation_refs(&doc, 3), Some(vec![(before + 3, 0)]));
    let reloaded = annotations_of_document(&doc).unwrap();
    let contents: Vec<&str> = reloaded.iter().map(|a| a.content.as_str()).collect();
    assert_eq!(contents, vec!["a", "c", "b"]);
}

#[test]
fn other_entries_of_the_page_are_kept() {
    let (mut doc, _) = three_pages();
    page_dictionary(&mut doc, 3).set("Rotate", Object::Integer(90));
    write_annotations(&mut doc, &vec![user_note(3, 0, 0, "a")]).unwrap();
    let page = page_dictionary(&mut doc, 3);
    assert_eq!(page.get(b"Rotate").unwrap().as_i64().unwrap(), 90);
    assert_eq!(page.get(b"Type").unwrap().as_name().unwrap(), b"Page");
    assert!(page.has(b"Annots"));
}

#[test]
fn annotation_validity_is_checked() {
    assert!(user_note(1, 4_000_000_000_000, -4_000_000_000_000, "edge").is_valid());
    assert!(!user_note(1, 4_000_000_000_001, 0, "x").is_valid());
    assert!(!user_note(1, 0, -4_000_000_000_001, "y").is_valid());
    let mut sized = user_note(1, 0, 0, "size");
    sized.font_size = Some(1_000_000_000_001);
    assert!(!sized.is_valid());
    sized.font_size = Some(-1_000_000_000_000);
    assert!(sized.is_valid());
    let copy = sized.duplicate();
    assert_eq!(copy.content, "size");
    assert_eq!(copy.font_size, sized.font_size);
}

#[test]
fn error_carries_its_message() {
    let open = DocumentError::OpenFailed("cannot open".to_string());
    let save = DocumentError::SaveFailed("cannot save".to_string());
    assert_eq!(open.message(), "cannot open");
    assert_eq!(save.message(), "cannot save");
}

#[test]
fn math_markup_is_told_from_text() {
    assert_eq!(math_body("$$x^2$$"), Some("x^2"));
    assert_eq!(math_body("$$$$"), Some(""));
    assert_eq!(math_body("$$\u{3b1}+\u{3b2}$$"), Some("\u{3b1}+\u{3b2}"));
    assert_eq!(math_body("$$$"), None);
    assert_eq!(math_body("$$"), None);
    assert_eq!(math_body(""), None);
    assert_eq!(math_body("$x$"), None);
    assert_eq!(math_body("a $$x$$"), None);
    assert_eq!(math_body("$$x$$ b"), None);
}

#[test]
fn loaded_annotations_are_ready_for_writing() {
    let (mut doc, _) = three_pages();
    let mut annotations = annotations_of_document(&doc).unwrap();
    annotations.push(user_note(3, 0, 0, "new"));
    assert!(ready_for_writing(&doc, &annotations));
    assert!(ready_for_writing(&doc, &Vec::new()));
    write_annotations(&mut doc, &annotations).unwrap();
    let reloaded = annotations_of_document(&doc).unwrap();
    assert!(ready_for_writing(&doc, &reloaded));
}

#[test]
fn shared_handle_is_not_ready_for_writing() {
    let (doc, existing) = three_pages();
    let mut first = user_note(1, 0, 0, "a");
    first.object_id = Some(existing);
    let mut second = user_note(2, 0, 0, "b");
    second.object_id = Some(existing);
    assert!(ready_for_writing(&doc, &vec![first.duplicate()]));
    assert!(!ready_for_writing(&doc, &vec![first, second]));
}

#[test]
fn handle_that_is_a_page_is_not_ready_for_writing() {
    let (doc, _) = three_pages();
    let mut note = user_note(1, 0, 0, "a");
    note.object_id = Some(doc.get_pages()[&2]);
    assert!(!ready_for_writing(&doc, &vec![note]));
}

#[test]
fn handle_beyond_the_numbers_given_out_is_not_ready_for_writing() {
    let (doc, _) = three_pages();
    let mut note = user_note(1, 0, 0, "a");
    note.object_id = Some((doc.max_id, 0));
    assert!(ready_for_writing(&doc, &vec![note.duplicate()]));
    note.object_id = Some((doc.max_id + 1, 0));
    assert!(!ready_for_writing(&doc, &vec![note]));
}

#[test]
fn page_behind_a_reference_is_not_ready_for_writing() {
    let (mut doc, _) = three_pages();
    let id = doc.get_pages()[&2];
    let page = doc.objects.remove(&id).unwrap();
    let moved = doc.add_object(page);
    doc.objects.insert(id, Object::Reference(moved));
    assert!(!ready_for_writing(&doc, &Vec::new()));
    // the page is read and written all the same
    assert_eq!(annotations_of_document(&doc).unwrap().len(), 1);
    write_annotations(&mut doc, &Vec::new()).unwrap();
    assert!(annotations_of_document(&doc).unwrap().is_empty());
}

#[test]
fn saved_bytes_are_the_written_document_as_a_file() {
    let (mut doc, _) = three_pages();
    let before = bytes_of(&mut doc);
    let mut annotations = load_annotations(&before).unwrap();
    annotations.push(user_note(1, 10_000, 20_000, "new"));
    let saved = save_pdf_with_annotations(&before, &annotations).unwrap();
    let mut by_hand = Document::load_mem(&before).unwrap();
    write_annotations(&mut by_hand, &annotations).unwrap();
    assert_eq!(saved, bytes_of(&mut by_hand));
    // the same document gives the same bytes each time
    assert_eq!(saved, save_pdf_with_annotations(&before, &annotations).unwrap());
}

#[test]
fn loaded_annotations_have_identifiers_of_their_own() {
    let (mut doc, existing) = three_pages();
    let second = doc.add_object(free_text(10, 500, "second", "0 0 0 rg /Helv 9 Tf"));
    let third = doc.add_object(free_text(10, 400, "third", "0 0 0 rg /Helv 9 Tf"));
    page_dictionary(&mut doc, 2).set(
        "Annots",
        Object::Array(vec![Object::Reference(existing), Object::Reference(second)]),
    );
    page_dictionary(&mut doc, 3).set("Annots", Object::Array(vec![Object::Reference(third)]));
    let loaded = load_annotations(&bytes_of(&mut doc)).unwrap();
    let ids: Vec<&str> = loaded.iter().map(|a| a.id.as_str()).collect();
    assert_eq!(ids, vec!["0", "1", "2"]);
}

#[test]
fn loaded_annotations_come_page_by_page() {
    let (mut doc, existing) = three_pages();
    let on_first = doc.add_object(free_text(10, 500, "first page", ""));
    let on_third = doc.add_object(free_text(10, 400, "third page", ""));
    let also_second = doc.add_object(free_text(10, 300, "second page, second", ""));
    page_dictionary(&mut doc, 3).set("Annots", Object::Array(vec![Object::Reference(on_third)]));
    page_dictionary(&mut doc, 1).set("Annots", Object::Array(vec![Object::Reference(on_first)]));
    page_dictionary(&mut doc, 2).set(
        "Annots",
        Object::Array(vec![Object::Reference(also_second), Object::Reference(existing)]),
    );
    let loaded = annotations_of_document(&doc).unwrap();
    let pages: Vec<u32> = loaded.iter().map(|a| a.page).collect();
    assert_eq!(pages, vec![1, 2, 2, 3]);
    let handles: Vec<Option<(u32, u16)>> = loaded.iter().map(|a| a.object_id).collect();
    assert_eq!(
        handles,
        vec![Some(on_first), Some(also_second), Some(existing), Some(on_third)]
    );
}

#[test]
fn page_tree_that_claims_countless_pages_is_read() {
    let (mut doc, existing) = three_pages();
    let root = doc.trailer.get(b"Root").unwrap().as_reference().unwrap();
    let pages_id = doc
        .get_object(root)
        .unwrap()
        .as_dict()
        .unwrap()
        .get(b"Pages")
        .unwrap()
        .as_reference()
        .unwrap();
    let mut boastful = Dictionary::new();
    boastful.set("Type", name("Pages"));
    boastful.set("Parent", Object::Reference(pages_id));
    boastful.set("Count", Object::Integer(i64::MAX));
    boastful.set("Kids", Object::Array(Vec::new()));
    let boastful_id = doc.add_object(boastful);
    let tree = doc.get_object_mut(pages_id).unwrap().as_dict_mut().unwrap();
    let mut kids = tree.get(b"Kids").unwrap().as_array().unwrap().clone();
    kids.insert(1, Object::Reference(boastful_id));
    tree.set("Kids", Object::Array(kids));
    let loaded = annotations_of_document(&doc).unwrap();
    assert_eq!(loaded.len(), 1);
    assert_eq!(loaded[0].page, 2);
    assert_eq!(loaded[0].object_id, Some(existing));
    assert!(ready_for_writing(&doc, &loaded));
    write_annotations(&mut doc, &loaded).unwrap();
    assert_eq!(annotations_of_document(&doc).unwrap().len(), 1);
}

#[test]
fn document_is_saved_from_memory() {
    let (mut doc, existing) = three_pages();
    let mut annotations = annotations_of_document(&doc).unwrap();
    annotations.push(user_note(3, 1_000, 2_000, "new"));
    let saved = save_document(&mut doc, &annotations).unwrap();
    let reread = Document::load_mem(&saved).unwrap();
    assert_eq!(annotation_refs(&reread, 2), Some(vec![existing]));
    assert_eq!(annotation_refs(&reread, 3).unwrap().len(), 1);
    let (mut full, _) = three_pages();
    full.max_id = u32::MAX;
    match save_document(&mut full, &annotations) {
        Err(DocumentError::SaveFailed(message)) => assert!(!message.is_empty()),
        other => panic!("unexpected outcome: {:?}", other.map(|bytes| bytes.len())),
    }
}
