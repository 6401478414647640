use margium::thumbnails::{
    thumbnail_size, visible_range, ThumbnailCache, ThumbnailResult, Viewport, VisibleRange,
};

fn range(start: i32, end: i32) -> VisibleRange {
    VisibleRange { start, end }
}

#[test]
fn range_follows_the_scroll_position() {
    let top = Some(Viewport { top: 0, bottom: 600 });
    assert_eq!(visible_range(100, 0, top), range(0, 7));
    let middle = Some(Viewport { top: 1_400, bottom: 2_000 });
    assert_eq!(visible_range(100, 0, middle), range(8, 17));
    let odd = Some(Viewport { top: 1_399, bottom: 1_401 });
    assert_eq!(visible_range(100, 0, odd), range(7, 13));
}

#[test]
fn range_ends_with_the_document() {
    let view = Some(Viewport { top: 0, bottom: 600 });
    assert_eq!(visible_range(5, 0, view), range(0, 4));
    assert_eq!(visible_range(1, 0, view), range(0, 0));
    let below = Some(Viewport { top: 14_000, bottom: 14_600 });
    assert_eq!(visible_range(5, 0, below), range(5, 4));
}

#[test]
fn range_of_no_document_is_empty() {
    let empty = visible_range(0, 0, Some(Viewport { top: 0, bottom: 600 }));
    assert_eq!(empty, range(0, -1));
    assert!(!empty.contains(0));
    assert_eq!(visible_range(0, 0, None), range(0, -1));
}

#[test]
fn unmeasured_side_bar_holds_the_rows_around_the_page() {
    assert_eq!(visible_range(100, 10, None), range(6, 14));
    assert_eq!(visible_range(100, 1, None), range(0, 5));
    assert_eq!(visible_range(12, 10, None), range(6, 11));
}

#[test]
fn scrolling_above_the_top_holds_the_first_rows() {
    let above = Some(Viewport { top: -300, bottom: 200 });
    assert_eq!(visible_range(100, 0, above), range(0, 4));
    let far_above = Some(Viewport { top: -3_000, bottom: -2_000 });
    assert_eq!(visible_range(100, 0, far_above), range(0, -1));
}

#[test]
fn new_rows_show_placeholders() {
    let cache = ThumbnailCache::prepare_empty_thumbnails(10, 0);
    assert_eq!(cache.row_count(), 10);
    for row in -1..11 {
        assert!(!cache.holds_picture(row));
    }
    assert_eq!(ThumbnailCache::prepare_empty_thumbnails(-3, 0).row_count(), 0);
}

#[test]
fn picture_is_taken_only_within_the_range() {
    let mut cache = ThumbnailCache::prepare_empty_thumbnails(10, 0);
    assert!(cache.set_thumbnail_image(0));
    assert!(cache.set_thumbnail_image(4));
    assert!(!cache.set_thumbnail_image(5));
    assert!(!cache.set_thumbnail_image(-1));
    assert!(!cache.set_thumbnail_image(10));
    assert!(cache.holds_picture(0));
    assert!(cache.holds_picture(4));
    assert!(!cache.holds_picture(5));
}

#[test]
fn rows_outside_the_range_give_up_their_pictures() {
    let mut cache = ThumbnailCache::prepare_empty_thumbnails(30, 0);
    for row in 0..5 {
        assert!(cache.set_thumbnail_image(row));
    }
    let wanted = cache.update_thumbnails(0, Some(Viewport { top: 700, bottom: 980 }));
    assert_eq!(wanted, vec![3, 4, 5, 6, 7, 8, 9]);
    for row in 0..30 {
        assert_eq!(cache.holds_picture(row), row == 3 || row == 4);
    }
    for row in wanted {
        assert!(cache.set_thumbnail_image(row));
    }
    let wanted = cache.update_thumbnails(0, Some(Viewport { top: 2_800, bottom: 3_080 }));
    assert_eq!(wanted, vec![18, 19, 20, 21, 22, 23, 24]);
    for row in 0..30 {
        assert!(!cache.holds_picture(row));
    }
}

#[test]
fn update_before_measuring_falls_back_to_the_page() {
    let mut cache = ThumbnailCache::prepare_empty_thumbnails(30, 0);
    assert_eq!(cache.update_thumbnails(20, None), vec![16, 17, 18, 19, 20, 21, 22, 23, 24]);
    assert!(cache.set_thumbnail_image(24));
    assert!(!cache.set_thumbnail_image(25));
}

#[test]
fn thumbnail_keeps_the_proportions() {
    assert_eq!(thumbnail_size(595_000, 842_000, 150), Some((150, 212)));
    assert_eq!(thumbnail_size(595_000, 842_000, 100), Some((100, 141)));
    assert_eq!(thumbnail_size(842_000, 595_000, 100), Some((100, 70)));
}

#[test]
fn thumbnail_needs_a_page_with_a_size() {
    assert_eq!(thumbnail_size(0, 842_000, 150), None);
    assert_eq!(thumbnail_size(-1, 842_000, 150), None);
    assert_eq!(thumbnail_size(595_000, 0, 150), None);
    assert_eq!(thumbnail_size(595_000, 842_000, 0), None);
    assert_eq!(thumbnail_size(1_000_000, 1, 100), None);
    assert_eq!(thumbnail_size(1, i64::MAX, 100), None);
}

#[test]
fn picture_needs_bytes_for_all_its_lines() {
    let good = ThumbnailResult {
        page_index: 0,
        width: 3,
        height: 2,
        stride: 16,
        pixels: vec![0; 32],
    };
    assert!(good.is_consistent());
    let short = ThumbnailResult { pixels: vec![0; 31], ..good_copy(&good) };
    assert!(!short.is_consistent());
    let narrow = ThumbnailResult { stride: 11, pixels: vec![0; 22], ..good_copy(&good) };
    assert!(!narrow.is_consistent());
    let flat = ThumbnailResult { height: 0, pixels: Vec::new(), ..good_copy(&good) };
    assert!(!flat.is_consistent());
    let tight = ThumbnailResult { stride: 12, pixels: vec![0; 24], ..good_copy(&good) };
    assert!(tight.is_consistent());
}

fn good_copy(source: &ThumbnailResult) -> ThumbnailResult {
    ThumbnailResult {
        page_index: source.page_index,
        width: source.width,
        height: source.height,
        stride: source.stride,
        pixels: source.pixels.clone(),
    }
}
