use blog_tools::priority::priority_in_range;

#[test]
fn priorities_from_zero_to_one_are_in_range() {
    for text in ["0", "0.0", "0.5", "1", "1.0", "1.000", "0.25", "0.999999", "00.5", "0.123456789012345678901234567890"] {
        assert!(priority_in_range(text), "{}", text);
    }
}

#[test]
fn priorities_above_one_are_out_of_range() {
    for text in ["1.5", "2", "1.0000001", "10", "100.0", "1.01", "99999999999999999999999999999999"] {
        assert!(!priority_in_range(text), "{}", text);
    }
}

#[test]
fn negative_priorities_are_out_of_range() {
    for text in ["-0.5", "-1", "-0.0000001", "-2"] {
        assert!(!priority_in_range(text), "{}", text);
    }
}

#[test]
fn minus_zero_counts_as_zero() {
    assert!(priority_in_range("-0"));
    assert!(priority_in_range("-0.0"));
}

#[test]
fn texts_that_are_no_decimal_numbers_are_out_of_range() {
    for text in ["", "-", ".", ".5", "1.", "0.5.1", "NaN", "inf", "-inf", "abc", "0,5", " 0.5", "0.5 ", "+0.5", "5e-1", "0x1"] {
        assert!(!priority_in_range(text), "{:?}", text);
    }
}

#[test]
fn what_rust_prints_for_a_float_is_judged_as_the_float() {
    for x in [0.0_f64, 0.5, 1.0, 0.1, 0.3333333333333333, 1e-7, 1.0000000000000002, 1.5, -0.25, 2.0, 1e21, -0.0] {
        let text = format!("{}", x);
        assert_eq!(priority_in_range(&text), (0.0..=1.0).contains(&x), "{}", text);
    }
}
