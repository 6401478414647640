use margium::transform::{
    centering_offset, clamp_scale, content_size, flip_y, highlight_box, hits, page_to_view,
    sheet_to_view, view_to_page, view_to_sheet, zoom_in, zoom_out, Rect, SheetBox, TOP_MARGIN,
};

#[test]
fn page_point_goes_to_the_view() {
    assert_eq!(page_to_view(100_000, 700_000, 842_000, 1_500), (150_000, 213_000));
    assert_eq!(page_to_view(100_000, 700_000, 842_000, 1_000), (100_000, 142_000));
    assert_eq!(page_to_view(0, 842_000, 842_000, 400), (0, 0));
}

#[test]
fn scaling_rounds_down() {
    assert_eq!(page_to_view(1, 0, 1, 500), (0, 0));
    assert_eq!(page_to_view(-1, 0, -1, 500), (-1, -1));
    assert_eq!(page_to_view(3, 0, 0, 400), (1, 0));
}

#[test]
fn view_point_goes_to_the_page() {
    let offset = 202_500;
    assert_eq!(
        view_to_page(150_000 + offset, 213_000 + TOP_MARGIN, 842_000, 1_500, offset),
        (100_000, 700_000)
    );
    assert_eq!(view_to_page(0, 0, 842_000, 1_000, 0), (0, 862_000));
}

#[test]
fn view_point_goes_to_the_sheet() {
    assert_eq!(view_to_sheet(302_500, 120_000, 1_000, 202_500), (100_000, 100_000));
    assert_eq!(view_to_sheet(100_000, 20_000, 2_000, 0), (50_000, 0));
    assert_eq!(view_to_sheet(0, 0, 1_000, 10_000), (-10_000, -20_000));
}

#[test]
fn sheet_point_goes_to_the_view() {
    assert_eq!(sheet_to_view(100_000, 50_000, 1_200), (120_000, 60_000));
}

#[test]
fn way_to_the_view_and_back_stays_within_tolerance() {
    let height = 842_000;
    let offset = 77_000;
    for scale in [400u32, 600, 999, 1_000, 1_001, 1_500, 2_000, 33_333, 100_000] {
        let tolerance = 999 / (scale as i64) + 1;
        for (x, y) in [(0i64, 0i64), (1, 1), (100_000, 700_000), (-5, 842_001), (594_999, 3)] {
            let (vx, vy) = page_to_view(x, y, height, scale);
            let (px, py) = view_to_page(vx + offset, vy + TOP_MARGIN, height, scale, offset);
            assert!(x - tolerance <= px && px <= x, "x {} at scale {}", x, scale);
            assert!(y <= py && py <= y + tolerance, "y {} at scale {}", y, scale);
        }
    }
}

#[test]
fn way_to_the_view_and_back_is_exact_at_whole_scales() {
    for scale in [1_000u32, 2_000, 5_000] {
        for (x, y) in [(0i64, 0i64), (1, 1), (123_457, 700_001), (-5, 842_001)] {
            let (vx, vy) = page_to_view(x, y, 842_000, scale);
            assert_eq!(view_to_page(vx + 9, vy + TOP_MARGIN, 842_000, scale, 9), (x, y));
        }
    }
}

#[test]
fn narrow_page_is_centred() {
    assert_eq!(centering_offset(1_000_000, 595_000, 1_000), 202_500);
    assert_eq!(centering_offset(1_000_000, 595_000, 1_500), 53_750);
}

#[test]
fn wide_page_starts_at_the_left_edge() {
    assert_eq!(centering_offset(500_000, 595_000, 1_000), 0);
    assert_eq!(centering_offset(595_000, 595_000, 1_000), 0);
}

#[test]
fn flip_turns_heights_into_depths_and_back() {
    assert_eq!(flip_y(842_000, 700_000), 142_000);
    assert_eq!(flip_y(842_000, flip_y(842_000, 123_456)), 123_456);
}

#[test]
fn scale_is_clamped() {
    assert_eq!(clamp_scale(0), 400);
    assert_eq!(clamp_scale(399), 400);
    assert_eq!(clamp_scale(400), 400);
    assert_eq!(clamp_scale(1_000), 1_000);
    assert_eq!(clamp_scale(100_001), 100_000);
}

#[test]
fn zoom_steps_by_a_fifth() {
    assert_eq!(zoom_in(1_000), 1_200);
    assert_eq!(zoom_out(1_000), 800);
    assert_eq!(zoom_out(500), 400);
    assert_eq!(zoom_out(100), 400);
    assert_eq!(zoom_in(99_900), 100_000);
    assert_eq!(zoom_in(u32::MAX), 100_000);
}

#[test]
fn hit_box_grows_with_the_text() {
    // five characters of 14 units: 5 * 14 * 0.8 = 56 units, and the margin
    assert!(hits(100_000, 100_000, 5, 14_000, 100_000, 100_000));
    assert!(hits(100_000, 100_000, 5, 14_000, 166_000, 138_000));
    assert!(!hits(100_000, 100_000, 5, 14_000, 166_001, 138_000));
    assert!(!hits(100_000, 100_000, 5, 14_000, 166_000, 138_001));
    assert!(!hits(100_000, 100_000, 5, 14_000, 99_999, 100_000));
    assert!(!hits(100_000, 100_000, 5, 14_000, 100_000, 99_999));
}

#[test]
fn hit_box_is_forty_units_wide_at_least() {
    // one character of 14 units is 11.2 units wide: the least width counts
    assert!(hits(0, 0, 1, 14_000, 50_000, 0));
    assert!(!hits(0, 0, 1, 14_000, 50_001, 0));
    assert!(hits(0, 0, 0, 14_000, 50_000, 38_000));
    // fifty units exactly is more than the least width
    assert!(hits(0, 0, 5, 12_500, 60_000, 0));
    assert!(!hits(0, 0, 5, 12_500, 60_001, 0));
}

#[test]
fn highlight_is_measured_from_the_top() {
    let wanted = SheetBox { x: 10_000, y: 122_000, width: 100_000, height: 20_000 };
    let rect = Rect { x1: 10_000, y1: 700_000, x2: 110_000, y2: 720_000 };
    assert_eq!(highlight_box(rect, 842_000), wanted);
    let turned = Rect { x1: 10_000, y1: 720_000, x2: 110_000, y2: 700_000 };
    assert_eq!(highlight_box(turned, 842_000), wanted);
}

#[test]
fn content_has_a_margin_above_and_below() {
    assert_eq!(content_size(595_000, 842_000, 1_000), (595_000, 882_000));
    assert_eq!(content_size(595_000, 842_000, 2_000), (1_190_000, 1_724_000));
}
