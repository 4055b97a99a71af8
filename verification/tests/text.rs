use terminaltime::text::{decimal_string, flag_string, push_decimal, text_before};

#[test]
fn decimal_text_of_small_numbers() {
    assert_eq!(decimal_string(0), "0");
    assert_eq!(decimal_string(7), "7");
    assert_eq!(decimal_string(10), "10");
    assert_eq!(decimal_string(1234567890), "1234567890");
    assert_eq!(decimal_string(-1), "-1");
    assert_eq!(decimal_string(-100), "-100");
}

#[test]
fn decimal_text_at_the_ends_of_the_range() {
    assert_eq!(decimal_string(i64::MAX), "9223372036854775807");
    assert_eq!(decimal_string(i64::MIN), "-9223372036854775808");
}

#[test]
fn decimal_text_agrees_with_the_standard_rendering() {
    let mut n: i64 = 1;
    for _ in 0..62 {
        assert_eq!(decimal_string(n), n.to_string());
        assert_eq!(decimal_string(-n), (-n).to_string());
        assert_eq!(decimal_string(n - 1), (n - 1).to_string());
        n *= 2;
    }
}

#[test]
fn push_decimal_appends() {
    let mut s = "LIMIT ".to_string();
    push_decimal(&mut s, 25);
    assert_eq!(s, "LIMIT 25");
    push_decimal(&mut s, -3);
    assert_eq!(s, "LIMIT 25-3");
}

#[test]
fn flags_are_one_and_zero() {
    assert_eq!(flag_string(true), "1");
    assert_eq!(flag_string(false), "0");
}

#[test]
fn text_order_on_timestamps() {
    assert!(text_before("2024-01-04", "2024-01-05"));
    assert!(!text_before("2024-01-05", "2024-01-04"));
    assert!(!text_before("2024-01-05", "2024-01-05"));
    assert!(text_before("2024-01-05", "2024-01-05T00:00:00"));
    assert!(!text_before("2024-01-05T00:00:00", "2024-01-05"));
    assert!(text_before("", "a"));
    assert!(!text_before("", ""));
    assert!(!text_before("a", ""));
    assert!(text_before("2023-12-31T23:59:59", "2024-01-01T00:00:00"));
}

#[test]
fn text_order_agrees_with_the_standard_order() {
    let samples = [
        "", "a", "ab", "b", "A", "2024-01-05", "2024-01-05T10:00:00+00:00", "2024-1-5", "é", "e",
        "z", "\u{1F4C1}", "\u{FFFF}", "\u{10000}", "zz", "é1",
    ];
    for a in samples.iter() {
        for b in samples.iter() {
            assert_eq!(text_before(a, b), a < b);
        }
    }
}
