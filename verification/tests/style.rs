use margium::style::{build_style, parse_font_size_from_da};

#[test]
fn font_size_is_the_number_before_the_marker() {
    assert_eq!(parse_font_size_from_da(b"0 0 0 rg /Helv 12 Tf"), Some(12_000));
    assert_eq!(parse_font_size_from_da(b"/Helv 12.5 Tf"), Some(12_500));
    assert_eq!(parse_font_size_from_da(b"9 Tf"), Some(9_000));
}

#[test]
fn font_size_needs_marker_and_number() {
    assert_eq!(parse_font_size_from_da(b""), None);
    assert_eq!(parse_font_size_from_da(b"Tf"), None);
    assert_eq!(parse_font_size_from_da(b"12"), None);
    assert_eq!(parse_font_size_from_da(b"12Tf"), None);
    assert_eq!(parse_font_size_from_da(b"/Helv Tf"), None);
    assert_eq!(parse_font_size_from_da(b"12 tf"), None);
    assert_eq!(parse_font_size_from_da(b"12 Tfx"), None);
}

#[test]
fn font_size_passes_over_a_marker_without_number() {
    assert_eq!(parse_font_size_from_da(b"/Helv Tf 10 Tf"), Some(10_000));
    assert_eq!(parse_font_size_from_da(b"1 Tf 2 Tf"), Some(1_000));
}

#[test]
fn font_size_words_are_split_at_any_white_space() {
    assert_eq!(parse_font_size_from_da(b"  9   Tf  "), Some(9_000));
    assert_eq!(parse_font_size_from_da(b"12\tTf"), Some(12_000));
    assert_eq!(parse_font_size_from_da(b"/Helv\n11\r\nTf"), Some(11_000));
}

#[test]
fn style_is_built_around_the_size() {
    assert_eq!(build_style(14_000), b"0 0 0 rg /Helv 14 Tf".to_vec());
    assert_eq!(build_style(12_500), b"0 0 0 rg /Helv 12.5 Tf".to_vec());
}

#[test]
fn font_size_is_read_back_from_a_built_style() {
    for size in [1i64, 999, 9_000, 12_500, 14_000, 1_000_000_000_000] {
        assert_eq!(parse_font_size_from_da(&build_style(size)), Some(size));
    }
}
