use margium::engine::PdfEngine;
use margium::search::{Fired, SearchResult, SearchState, TimerRequest};
use margium::transform::Rect;

fn rect(n: i64) -> Rect {
    Rect { x1: n, y1: n, x2: n + 10, y2: n + 10 }
}

fn engine() -> PdfEngine {
    let mut engine = PdfEngine::new();
    engine.load_file("/tmp/paper.pdf".to_string(), "paper.pdf".to_string(), 5);
    engine
}

fn fired_epoch(outcome: Fired) -> (usize, String) {
    match outcome {
        Fired::Spawn { epoch, query } => (epoch, query),
        other => panic!("no search started: {:?}", other),
    }
}

#[test]
fn each_change_replaces_the_timer() {
    let mut state = SearchState::new();
    assert_eq!(state.query_changed("a".to_string()), TimerRequest { cancel: None, start: 0 });
    assert_eq!(state.query_changed("ab".to_string()), TimerRequest { cancel: Some(0), start: 1 });
    assert_eq!(state.query_changed("abc".to_string()), TimerRequest { cancel: Some(1), start: 2 });
}

#[test]
fn rapid_changes_start_one_search_for_the_last_query() {
    let mut state = SearchState::new();
    let mut engine = engine();
    let mut last = 0;
    for query in ["a", "ab", "abc", "abcd"] {
        last = state.query_changed(query.to_string()).start;
    }
    let mut started = Vec::new();
    for token in [0, 1, 2, last, last, 0, 7] {
        if let Fired::Spawn { epoch, query } = state.timer_fired(&mut engine, token) {
            started.push((epoch, query));
        }
    }
    assert_eq!(started, vec![(1, "abcd".to_string())]);
    assert_eq!(state.current_epoch(), 1);
    assert_eq!(state.status(), "Searching...");
}

#[test]
fn stopped_timer_starts_nothing() {
    let mut state = SearchState::new();
    let mut engine = engine();
    let first = state.query_changed("a".to_string()).start;
    state.query_changed("ab".to_string());
    assert!(matches!(state.timer_fired(&mut engine, first), Fired::Stale));
    assert_eq!(state.current_epoch(), 0);
}

#[test]
fn empty_query_starts_no_search_but_clears() {
    let mut state = SearchState::new();
    let mut engine = engine();
    let token = state.query_changed("x".to_string()).start;
    let (epoch, _) = fired_epoch(state.timer_fired(&mut engine, token));
    assert!(state.accept(&mut engine, SearchResult::for_page(0, epoch, vec![rect(1)]).unwrap()));
    assert_eq!(state.result_count(), 1);
    let token = state.query_changed(String::new()).start;
    assert!(matches!(state.timer_fired(&mut engine, token), Fired::Idle));
    assert_eq!(state.current_epoch(), 2);
    assert_eq!(state.result_count(), 0);
    assert_eq!(state.status(), "Ready");
    assert!(engine.highlight_rects().is_empty());
}

#[test]
fn result_of_the_current_search_is_shown() {
    let mut state = SearchState::new();
    let mut engine = engine();
    let token = state.query_changed("x".to_string()).start;
    let (epoch, query) = fired_epoch(state.timer_fired(&mut engine, token));
    assert_eq!((epoch, query.as_str()), (1, "x"));
    let result = SearchResult::for_page(0, epoch, vec![rect(1), rect(2)]).unwrap();
    assert!(state.accept(&mut engine, result));
    assert_eq!(state.result_count(), 1);
    assert_eq!(*engine.highlight_rects(), vec![rect(1), rect(2)]);
    let shown = state.get_result_data(0).unwrap();
    assert_eq!(shown.page, 0);
    assert_eq!(shown.req_id, 1);
    assert_eq!(shown.display_text, "Found 2 matches");
    assert_eq!(shown.rects, vec![rect(1), rect(2)]);
    assert!(state.get_result_data(1).is_none());
}

#[test]
fn late_result_of_an_old_search_is_dropped() {
    let mut state = SearchState::new();
    let mut engine = engine();
    let token = state.query_changed("old".to_string()).start;
    let (old_epoch, _) = fired_epoch(state.timer_fired(&mut engine, token));
    let token = state.query_changed("new".to_string()).start;
    let (new_epoch, _) = fired_epoch(state.timer_fired(&mut engine, token));
    assert_eq!((old_epoch, new_epoch), (1, 2));
    // a result of the new search arrives first, then a late one of the old
    assert!(state.accept(&mut engine, SearchResult::for_page(0, new_epoch, vec![rect(5)]).unwrap()));
    assert!(!state.accept(&mut engine, SearchResult::for_page(0, old_epoch, vec![rect(9)]).unwrap()));
    assert!(!state.accept(&mut engine, SearchResult::for_page(3, old_epoch, vec![rect(9)]).unwrap()));
    assert_eq!(state.result_count(), 1);
    assert_eq!(state.get_result_data(0).unwrap().rects, vec![rect(5)]);
    assert_eq!(*engine.highlight_rects(), vec![rect(5)]);
    engine.jump_to_page(3);
    assert!(engine.highlight_rects().is_empty());
}

#[test]
fn result_from_the_future_is_dropped_too() {
    let mut state = SearchState::new();
    let mut engine = engine();
    assert!(!state.accept(&mut engine, SearchResult::for_page(0, 1, vec![rect(1)]).unwrap()));
    assert_eq!(state.result_count(), 0);
}

#[test]
fn page_without_hits_sends_nothing() {
    assert!(SearchResult::for_page(4, 1, Vec::new()).is_none());
    let one = SearchResult::for_page(4, 1, vec![rect(0)]).unwrap();
    assert_eq!(one.display_text, "Found 1 matches");
    let many = SearchResult::for_page(4, 1, (0..12).map(rect).collect()).unwrap();
    assert_eq!(many.display_text, "Found 12 matches");
    assert_eq!(many.page, 4);
}

#[test]
fn later_hits_of_a_page_replace_earlier_ones() {
    let mut state = SearchState::new();
    let mut engine = engine();
    let token = state.query_changed("x".to_string()).start;
    let (epoch, _) = fired_epoch(state.timer_fired(&mut engine, token));
    assert!(state.accept(&mut engine, SearchResult::for_page(0, epoch, vec![rect(1)]).unwrap()));
    assert!(state.accept(&mut engine, SearchResult::for_page(0, epoch, vec![rect(2)]).unwrap()));
    assert_eq!(state.result_count(), 2);
    assert_eq!(*engine.highlight_rects(), vec![rect(2)]);
}
