use abcd::conditions::{
    clean_condition_value, clean_optional_text, confirm_quarter_value, confirm_session_value,
    confirm_year_value, first_clean_condition_value, pattern_length_bucket, trend_condition_value,
    CalendarStamp,
};

fn s(v: &str) -> Option<String> {
    Some(v.to_string())
}

#[test]
fn optional_texts() {
    assert_eq!(clean_optional_text(Some("  a b ")), s("a b"));
    assert_eq!(clean_optional_text(Some(" \t ")), None);
    assert_eq!(clean_optional_text(None), None);
}

#[test]
fn condition_values() {
    assert_eq!(clean_condition_value(s(" Bullish ")), "Bullish");
    assert_eq!(clean_condition_value(s("")), "Unknown");
    assert_eq!(clean_condition_value(None), "Unknown");
    assert_eq!(first_clean_condition_value(s("  "), s(" x ")), "x");
    assert_eq!(first_clean_condition_value(s("p"), s("x")), "p");
    assert_eq!(first_clean_condition_value(s("Unknown"), s("y")), "y");
    assert_eq!(first_clean_condition_value(None, None), "Unknown");
}

#[test]
fn trends_and_buckets() {
    assert_eq!(trend_condition_value(Some(1)), "Bullish");
    assert_eq!(trend_condition_value(Some(-3)), "Bullish");
    assert_eq!(trend_condition_value(Some(0)), "Bearish");
    assert_eq!(trend_condition_value(None), "Unknown");
    assert_eq!(pattern_length_bucket(Some(-5)), "0-20 bars");
    assert_eq!(pattern_length_bucket(Some(20)), "0-20 bars");
    assert_eq!(pattern_length_bucket(Some(21)), "21-50 bars");
    assert_eq!(pattern_length_bucket(Some(100)), "51-100 bars");
    assert_eq!(pattern_length_bucket(Some(200)), "101-200 bars");
    assert_eq!(pattern_length_bucket(Some(201)), "200+ bars");
    assert_eq!(pattern_length_bucket(None), "Unknown");
}

#[test]
fn calendar_stamps() {
    assert!(CalendarStamp::from_parts(2025, 0, 1).is_none());
    assert!(CalendarStamp::from_parts(2025, 13, 1).is_none());
    assert!(CalendarStamp::from_parts(2025, 1, 24).is_none());
    let c = CalendarStamp::from_parts(2025, 7, 14).unwrap();
    assert_eq!((c.year(), c.month(), c.hour()), (2025, 7, 14));
    let stamp = || CalendarStamp::from_parts(2025, 7, 14);
    assert_eq!(confirm_year_value(stamp()), "2025");
    assert_eq!(confirm_quarter_value(stamp()), "2025-Q3");
    assert_eq!(confirm_session_value(stamp()), "Regular");
    assert_eq!(confirm_year_value(None), "Unknown");
    assert_eq!(confirm_quarter_value(None), "Unknown");
    assert_eq!(confirm_session_value(None), "Unknown");
}

#[test]
fn quarters_and_sessions() {
    let q = |m: u32| confirm_quarter_value(CalendarStamp::from_parts(2024, m, 0));
    assert_eq!(q(1), "2024-Q1");
    assert_eq!(q(3), "2024-Q1");
    assert_eq!(q(4), "2024-Q2");
    assert_eq!(q(12), "2024-Q4");
    let h = |hour: u32| confirm_session_value(CalendarStamp::from_parts(2024, 1, hour));
    assert_eq!(h(0), "Overnight");
    assert_eq!(h(5), "Overnight");
    assert_eq!(h(6), "Pre-Market");
    assert_eq!(h(9), "Regular");
    assert_eq!(h(16), "After-Hours");
    assert_eq!(h(21), "Late");
    assert_eq!(h(23), "Late");
    assert_eq!(confirm_year_value(CalendarStamp::from_parts(-44, 3, 0)), "-44");
}
