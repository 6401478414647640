use margium::annotations::AnnotationData;
use margium::engine::PdfEngine;
use margium::transform::Rect;
use std::collections::HashMap;

fn opened(pages: i32) -> PdfEngine {
    let mut engine = PdfEngine::new();
    engine.load_file("/tmp/paper.pdf".to_string(), "paper.pdf".to_string(), pages);
    engine
}

fn note(page: u32, x: i64, y: i64, content: &str, object_id: Option<(u32, u16)>) -> AnnotationData {
    AnnotationData {
        page,
        x,
        y,
        content: content.to_string(),
        font_size: None,
        id: "as read".to_string(),
        object_id,
    }
}

#[test]
fn new_engine_has_no_document() {
    let engine = PdfEngine::new();
    assert_eq!(engine.get_total_pages(), 0);
    assert_eq!(engine.get_current_page_number(), 0);
    assert_eq!(engine.get_filepath(), None);
    assert_eq!(engine.status_text(), " ");
    assert_eq!(engine.page_info(), " - ");
    assert!(engine.annotations().is_empty());
    assert!(engine.highlight_rects().is_empty());
    assert_eq!(*engine.active_annotation_id(), None);
}

#[test]
fn opened_document_shows_its_first_page() {
    let engine = opened(3);
    assert_eq!(engine.get_total_pages(), 3);
    assert_eq!(engine.get_current_page_number(), 0);
    assert_eq!(engine.get_filepath(), Some("/tmp/paper.pdf".to_string()));
    assert_eq!(engine.status_text(), "paper.pdf");
    assert_eq!(engine.page_info(), "1 / 3");
}

#[test]
fn negative_page_count_is_no_page() {
    let engine = opened(-4);
    assert_eq!(engine.get_total_pages(), 0);
    assert_eq!(engine.page_info(), " - ");
}

#[test]
fn opening_a_document_forgets_the_one_before() {
    let mut engine = opened(3);
    engine.add_annotation("a", 1_000, 1_000).unwrap();
    engine.jump_to_page(2);
    engine.load_file("/tmp/other.pdf".to_string(), "other.pdf".to_string(), 12);
    assert!(engine.annotations().is_empty());
    assert_eq!(engine.get_current_page_number(), 0);
    assert_eq!(engine.page_info(), "1 / 12");
    engine.add_annotation("b", 1_000, 1_000).unwrap();
    assert_eq!(engine.annotations()[0].id, "0");
}

#[test]
fn pages_are_walked_within_the_document() {
    let mut engine = opened(3);
    assert!(!engine.prev_page());
    assert!(engine.next_page());
    assert_eq!(engine.page_info(), "2 / 3");
    assert!(engine.next_page());
    assert_eq!(engine.page_info(), "3 / 3");
    assert!(!engine.next_page());
    assert_eq!(engine.get_current_page_number(), 2);
    assert!(engine.prev_page());
    assert_eq!(engine.get_current_page_number(), 1);
}

#[test]
fn jump_needs_a_page_of_the_document() {
    let mut engine = opened(3);
    assert!(engine.jump_to_page(2));
    assert_eq!(engine.get_current_page_number(), 2);
    assert!(!engine.jump_to_page(3));
    assert!(!engine.jump_to_page(-1));
    assert_eq!(engine.get_current_page_number(), 2);
    let mut empty = PdfEngine::new();
    assert!(!empty.jump_to_page(0));
    assert!(!empty.next_page());
}

#[test]
fn page_counter_has_several_digits() {
    let mut engine = opened(1_204);
    engine.jump_to_page(1_009);
    assert_eq!(engine.page_info(), "1010 / 1204");
}

#[test]
fn added_annotation_stands_on_the_page_shown() {
    let mut engine = opened(3);
    engine.jump_to_page(1);
    assert!(engine.add_annotation("first", 10_000, 20_000).is_ok());
    assert!(engine.add_annotation("second", 30_000, 40_000).is_ok());
    let list = engine.annotations();
    assert_eq!(list.len(), 2);
    assert_eq!(list[0].page, 2);
    assert_eq!(list[0].x, 10_000);
    assert_eq!(list[0].y, 20_000);
    assert_eq!(list[0].content, "first");
    assert_eq!(list[0].font_size, Some(14_000));
    assert_eq!(list[0].id, "0");
    assert_eq!(list[0].object_id, None);
    assert_eq!(list[1].id, "1");
}

#[test]
fn annotation_out_of_range_is_refused() {
    let mut engine = opened(1);
    assert!(engine.add_annotation("far", 4_000_000_000_001, 0).is_err());
    assert!(engine.add_annotation("far", 0, -4_000_000_000_001).is_err());
    assert!(engine.annotations().is_empty());
    assert!(engine.add_annotation("edge", 4_000_000_000_000, -4_000_000_000_000).is_ok());
}

#[test]
fn click_hits_the_annotation_on_top() {
    let mut engine = opened(2);
    engine.add_annotation("under", 100_000, 100_000).unwrap();
    engine.add_annotation("over", 120_000, 110_000).unwrap();
    assert_eq!(engine.hit_test_annotation(125_000, 115_000), Some("1".to_string()));
    assert_eq!(engine.hit_test_annotation(105_000, 105_000), Some("0".to_string()));
    assert_eq!(engine.hit_test_annotation(99_999, 105_000), None);
    // the box of "under" is 5 * 14 * 0.8 + 10 = 66 units wide and 38 high
    assert_eq!(engine.hit_test_annotation(166_000, 100_000), Some("0".to_string()));
    assert_eq!(engine.hit_test_annotation(100_000, 138_000), Some("0".to_string()));
    assert_eq!(engine.hit_test_annotation(100_000, 138_001), None);
}

#[test]
fn click_hits_only_the_page_shown() {
    let mut engine = opened(2);
    engine.add_annotation("here", 100_000, 100_000).unwrap();
    engine.jump_to_page(1);
    assert_eq!(engine.hit_test_annotation(105_000, 105_000), None);
    engine.jump_to_page(0);
    assert_eq!(engine.hit_test_annotation(105_000, 105_000), Some("0".to_string()));
}

#[test]
fn annotation_moves_by_its_identifier() {
    let mut engine = opened(1);
    engine.add_annotation("a", 1_000, 2_000).unwrap();
    engine.add_annotation("b", 3_000, 4_000).unwrap();
    assert!(engine.move_annotation("1", 30_000, 40_000));
    assert_eq!(engine.annotations()[1].x, 30_000);
    assert_eq!(engine.annotations()[1].y, 40_000);
    assert_eq!(engine.annotations()[1].content, "b");
    assert_eq!(engine.annotations()[0].x, 1_000);
    assert!(!engine.move_annotation("7", 0, 0));
    assert!(!engine.move_annotation("0", 4_000_000_000_001, 0));
    assert_eq!(engine.annotations()[0].x, 1_000);
}

#[test]
fn content_changes_by_identifier_and_by_selection() {
    let mut engine = opened(1);
    engine.add_annotation("a", 1_000, 2_000).unwrap();
    engine.add_annotation("b", 3_000, 4_000).unwrap();
    assert!(engine.update_annotation_content("0", "A"));
    assert_eq!(engine.annotations()[0].content, "A");
    assert!(!engine.update_active_annotation_content("none selected"));
    engine.select_annotation(Some("1".to_string()));
    assert_eq!(*engine.active_annotation_id(), Some("1".to_string()));
    assert!(engine.update_active_annotation_content("B"));
    assert_eq!(engine.annotations()[1].content, "B");
    engine.select_annotation(Some("9".to_string()));
    assert!(!engine.update_active_annotation_content("nobody"));
    assert_eq!(engine.annotations()[0].content, "A");
}

#[test]
fn deleted_annotation_is_gone_and_identifiers_stay() {
    let mut engine = opened(1);
    engine.add_annotation("a", 1_000, 2_000).unwrap();
    engine.add_annotation("b", 3_000, 4_000).unwrap();
    engine.add_annotation("c", 5_000, 6_000).unwrap();
    assert!(engine.delete_annotation("1"));
    assert!(!engine.delete_annotation("1"));
    let ids: Vec<String> = engine.annotations().iter().map(|a| a.id.clone()).collect();
    assert_eq!(ids, vec!["0".to_string(), "2".to_string()]);
    engine.add_annotation("d", 7_000, 8_000).unwrap();
    assert_eq!(engine.annotations()[2].id, "3");
}

#[test]
fn loaded_annotations_get_identifiers_of_their_own() {
    let mut engine = opened(3);
    engine.add_annotation("old", 0, 0).unwrap();
    engine.set_annotations(vec![
        note(2, 100_000, 142_000, "one", Some((7, 0))),
        note(3, 5_000, 6_000, "two", None),
        note(3, 7_000, 8_000, "three", None),
    ]);
    let list = engine.annotations();
    assert_eq!(list.len(), 3);
    assert_eq!(list[0].id, "0");
    assert_eq!(list[1].id, "1");
    assert_eq!(list[2].id, "2");
    assert_eq!(list[0].content, "one");
    assert_eq!(list[0].object_id, Some((7, 0)));
    assert_eq!(list[2].x, 7_000);
}

#[test]
fn one_annotation_for_each_object_of_the_document() {
    let mut engine = opened(3);
    engine.set_annotations(vec![
        note(1, 0, 0, "kept", Some((7, 0))),
        note(2, 0, 0, "same object", Some((7, 0))),
        note(2, 0, 0, "other generation", Some((7, 1))),
        note(2, 4_000_000_000_001, 0, "out of range", Some((9, 0))),
    ]);
    let contents: Vec<String> = engine.annotations().iter().map(|a| a.content.clone()).collect();
    assert_eq!(contents, vec!["kept".to_string(), "other generation".to_string()]);
    assert_eq!(engine.annotations()[1].id, "1");
}

#[test]
fn entered_text_adds_or_edits() {
    let mut engine = opened(1);
    assert!(!engine.submit_annotation_text(None, "", 1_000, 1_000));
    assert!(engine.annotations().is_empty());
    assert!(engine.submit_annotation_text(None, "new", 1_000, 2_000));
    assert_eq!(engine.annotations()[0].content, "new");
    assert!(engine.submit_annotation_text(Some("0"), "edited", 9, 9));
    assert_eq!(engine.annotations()[0].content, "edited");
    assert_eq!(engine.annotations()[0].x, 1_000);
    assert_eq!(*engine.active_annotation_id(), Some("0".to_string()));
    assert!(!engine.submit_annotation_text(Some("5"), "nobody", 9, 9));
    assert_eq!(*engine.active_annotation_id(), Some("5".to_string()));
    assert!(!engine.submit_annotation_text(Some("0"), "", 9, 9));
    assert_eq!(engine.annotations()[0].content, "edited");
}

#[test]
fn annotations_of_the_page_shown_are_painted() {
    let mut engine = opened(3);
    engine.set_annotations(vec![
        note(1, 0, 0, "a", None),
        note(2, 0, 0, "b", None),
        note(1, 0, 0, "c", None),
        note(3, 0, 0, "d", None),
    ]);
    assert_eq!(engine.shown_annotations(), vec![0, 2]);
    engine.jump_to_page(1);
    assert_eq!(engine.shown_annotations(), vec![1]);
    engine.jump_to_page(2);
    assert_eq!(engine.shown_annotations(), vec![3]);
}

#[test]
fn hits_of_the_page_shown_are_highlighted() {
    let first = Rect { x1: 1, y1: 2, x2: 3, y2: 4 };
    let second = Rect { x1: 5, y1: 6, x2: 7, y2: 8 };
    let third = Rect { x1: 9, y1: 10, x2: 11, y2: 12 };
    let mut results = HashMap::new();
    results.insert(0, vec![first, second]);
    results.insert(2, vec![third]);
    let mut engine = opened(3);
    engine.set_all_search_results(results);
    assert_eq!(*engine.highlight_rects(), vec![first, second]);
    engine.jump_to_page(1);
    assert!(engine.highlight_rects().is_empty());
    engine.next_page();
    assert_eq!(*engine.highlight_rects(), vec![third]);
    engine.clear_search_results();
    assert!(engine.highlight_rects().is_empty());
    engine.jump_to_page(0);
    assert!(engine.highlight_rects().is_empty());
}
