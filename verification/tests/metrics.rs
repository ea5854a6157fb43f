use statusbar::metrics::{
    battery_fragment, clock_fragment, clock_fragment_at, memory_fragment, percent_fragment,
    percent_sign, DATE_PATTERN, DATE_WIDTH, TIME_PATTERN, TIME_WIDTH,
};
use statusbar::values::MetricError;

#[test]
fn percent_sign_appends_the_sign() {
    assert_eq!(percent_sign("88"), "88%");
    assert_eq!(percent_sign(""), "%");
}

#[test]
fn percent_fragment_writes_number_and_sign() {
    assert_eq!(percent_fragment(0), "0%");
    assert_eq!(percent_fragment(7), "7%");
    assert_eq!(percent_fragment(100), "100%");
    assert_eq!(percent_fragment(255), "255%");
}

#[test]
fn battery_fragment_trims_the_reading() {
    assert_eq!(battery_fragment("88\n"), "88%");
    assert_eq!(battery_fragment("  100 \t\n"), "100%");
    assert_eq!(battery_fragment("7"), "7%");
    assert_eq!(battery_fragment(""), "%");
}

#[test]
fn memory_fragment_gives_the_share_in_use() {
    assert_eq!(memory_fragment(16_000, 4_000), Ok(String::from("75%")));
    assert_eq!(memory_fragment(1_000, 1_000), Ok(String::from("0%")));
    assert_eq!(memory_fragment(1_000, 0), Ok(String::from("100%")));
    assert_eq!(memory_fragment(3, 1), Ok(String::from("66%")));
    assert_eq!(memory_fragment(8_000_000, 4_640_000), Ok(String::from("42%")));
}

#[test]
fn memory_fragment_does_not_overflow_on_large_readings() {
    assert_eq!(memory_fragment(u64::MAX, 0), Ok(String::from("100%")));
    assert_eq!(memory_fragment(u64::MAX, 1), Ok(String::from("99%")));
    assert_eq!(memory_fragment(u64::MAX, u64::MAX), Ok(String::from("0%")));
}

#[test]
fn memory_fragment_rejects_readings_that_make_no_sense() {
    assert_eq!(memory_fragment(0, 0), Err(MetricError::Malformed));
    assert_eq!(memory_fragment(0, 5), Err(MetricError::Malformed));
    assert_eq!(memory_fragment(10, 11), Err(MetricError::Malformed));
}

#[test]
fn clock_patterns_and_widths() {
    assert_eq!(DATE_PATTERN, "%b %d %Y (%a)");
    assert_eq!(TIME_PATTERN, "%H:%M:%S");
    assert_eq!(DATE_WIDTH, 17);
    assert_eq!(TIME_WIDTH, 8);
}

#[test]
fn clock_fragment_lays_out_date_and_time() {
    assert_eq!(
        clock_fragment("jan 01 2023 (sun)", "00:00:00"),
        "jan 01 2023 (sun)  00:00:00"
    );
    assert_eq!(clock_fragment("a", "b"), "a                  b       ");
    assert_eq!(clock_fragment("a", "b").len(), 27);
}

#[test]
fn clock_fragment_at_the_first_second_of_2023() {
    assert_eq!(
        clock_fragment_at(1_672_531_200),
        Ok(String::from("jan 01 2023 (sun)  00:00:00"))
    );
}

#[test]
fn clock_fragment_at_other_instants() {
    assert_eq!(clock_fragment_at(0), Ok(String::from("jan 01 1970 (thu)  00:00:00")));
    assert_eq!(
        clock_fragment_at(1_700_000_000),
        Ok(String::from("nov 14 2023 (tue)  22:13:20"))
    );
    assert_eq!(clock_fragment_at(-1), Ok(String::from("dec 31 1969 (wed)  23:59:59")));
}

#[test]
fn clock_fragment_at_an_instant_out_of_range_fails() {
    assert_eq!(clock_fragment_at(i64::MAX), Err(MetricError::Malformed));
    assert_eq!(clock_fragment_at(i64::MIN), Err(MetricError::Malformed));
}

#[test]
fn clock_fragment_at_any_second_of_a_day_has_the_usual_shape() {
    for second in [0i64, 59, 3_600, 43_199, 86_399] {
        let text = clock_fragment_at(1_672_531_200 + second).unwrap();
        let chars: Vec<char> = text.chars().collect();
        assert_eq!(chars.len(), 27);
        assert_eq!(chars[21], ':');
        assert_eq!(chars[24], ':');
        assert!(text.starts_with("jan 01 2023 (sun)  "));
    }
    assert_eq!(
        clock_fragment_at(1_672_531_200 + 86_399),
        Ok(String::from("jan 01 2023 (sun)  23:59:59"))
    );
}
