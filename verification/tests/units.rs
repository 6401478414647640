use margium::units::{format_milli, parse_decimal};

#[test]
fn parse_reads_whole_numbers_and_fractions() {
    assert_eq!(parse_decimal(b"842"), Some(842_000));
    assert_eq!(parse_decimal(b"12.5"), Some(12_500));
    assert_eq!(parse_decimal(b"0.001"), Some(1));
    assert_eq!(parse_decimal(b"007"), Some(7_000));
}

#[test]
fn parse_takes_a_sign_and_a_bare_point() {
    assert_eq!(parse_decimal(b"-3"), Some(-3_000));
    assert_eq!(parse_decimal(b"+3"), Some(3_000));
    assert_eq!(parse_decimal(b"-0"), Some(0));
    assert_eq!(parse_decimal(b".5"), Some(500));
    assert_eq!(parse_decimal(b"5."), Some(5_000));
    assert_eq!(parse_decimal(b"-.25"), Some(-250));
}

#[test]
fn parse_drops_places_after_the_third() {
    assert_eq!(parse_decimal(b"3.14159"), Some(3_141));
    assert_eq!(parse_decimal(b"0.9999"), Some(999));
    assert_eq!(parse_decimal(b"-1.0009"), Some(-1_000));
}

#[test]
fn parse_refuses_what_is_no_decimal() {
    assert_eq!(parse_decimal(b""), None);
    assert_eq!(parse_decimal(b"."), None);
    assert_eq!(parse_decimal(b"-"), None);
    assert_eq!(parse_decimal(b"+."), None);
    assert_eq!(parse_decimal(b"1e3"), None);
    assert_eq!(parse_decimal(b"NaN"), None);
    assert_eq!(parse_decimal(b"inf"), None);
    assert_eq!(parse_decimal(b"12a"), None);
    assert_eq!(parse_decimal(b"1.2.3"), None);
    assert_eq!(parse_decimal(b"1 2"), None);
    assert_eq!(parse_decimal(b"--1"), None);
}

#[test]
fn parse_keeps_to_the_range() {
    assert_eq!(parse_decimal(b"1000000000"), Some(1_000_000_000_000));
    assert_eq!(parse_decimal(b"-1000000000"), Some(-1_000_000_000_000));
    assert_eq!(parse_decimal(b"1000000000.001"), None);
    assert_eq!(parse_decimal(b"1000000001"), None);
    assert_eq!(parse_decimal(b"340282350000000000000000000000000000000"), None);
}

#[test]
fn format_writes_the_shortest_text() {
    assert_eq!(format_milli(0), b"0".to_vec());
    assert_eq!(format_milli(842_000), b"842".to_vec());
    assert_eq!(format_milli(12_500), b"12.5".to_vec());
    assert_eq!(format_milli(10), b"0.01".to_vec());
    assert_eq!(format_milli(100), b"0.1".to_vec());
    assert_eq!(format_milli(1), b"0.001".to_vec());
    assert_eq!(format_milli(1_234_567), b"1234.567".to_vec());
    assert_eq!(format_milli(-1), b"-0.001".to_vec());
    assert_eq!(format_milli(-21_000), b"-21".to_vec());
}

#[test]
fn format_reaches_the_ends_of_the_integers() {
    assert_eq!(format_milli(i64::MAX), b"9223372036854775.807".to_vec());
    assert_eq!(format_milli(i64::MIN), b"-9223372036854775.808".to_vec());
}

#[test]
fn parse_reads_back_what_format_wrote() {
    let samples: [i64; 12] = [
        0,
        1,
        -1,
        999,
        1_000,
        -1_001,
        14_000,
        842_000,
        123_456_789,
        -987_654_321,
        1_000_000_000_000,
        -1_000_000_000_000,
    ];
    for v in samples {
        assert_eq!(parse_decimal(&format_milli(v)), Some(v));
    }
}
