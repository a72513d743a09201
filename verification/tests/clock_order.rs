use abcd::clock::{calendar_or_count, datetime_setting, format_ns, split_ns};
use abcd::order::{key_before, sort_positions, text_before, ts_before, ts_max, ts_min, SortKey, Timestamp, group_positions};
use abcd::pivots::{PivotType, ABCD};

fn chars(s: &str) -> Vec<char> {
    s.chars().collect()
}

#[test]
fn nanoseconds_split_euclidean() {
    assert_eq!(split_ns(0), (0, 0));
    assert_eq!(split_ns(1_500_000_000), (1, 500_000_000));
    assert_eq!(split_ns(-1), (-1, 999_999_999));
    assert_eq!(split_ns(-1_000_000_000), (-1, 0));
    assert_eq!(split_ns(i64::MIN), (-9_223_372_037, 145_224_192));
}

#[test]
fn nanosecond_times_are_shown_as_calendar_text() {
    assert_eq!(format_ns(None), "");
    assert_eq!(format_ns(Some(0)), "1970-01-01 00:00:00");
    assert_eq!(format_ns(Some(1_700_000_000_123_000_000)), "2023-11-14 22:13:20.123");
    assert_eq!(format_ns(Some(-1)), "1969-12-31 23:59:59.999999999");
    assert_eq!(calendar_or_count(Some("x".to_string()), 5), "x");
    assert_eq!(calendar_or_count(None, -42), "-42");
}

#[test]
fn time_order() {
    let a = Timestamp { secs: 1, nanos: 5 };
    let b = Timestamp { secs: 1, nanos: 7 };
    let c = Timestamp { secs: 0, nanos: 999 };
    assert!(ts_before(&a, &b));
    assert!(!ts_before(&b, &a));
    assert!(!ts_before(&a, &a));
    assert!(ts_before(&c, &a));
    assert_eq!(ts_min(a, b), a);
    assert_eq!(ts_max(a, b), b);
    assert_eq!(ts_min(a, a), a);
}

#[test]
fn text_order_is_by_code_point() {
    assert!(text_before(&chars("ab"), &chars("b")));
    assert!(text_before(&chars("a"), &chars("ab")));
    assert!(!text_before(&chars("ab"), &chars("ab")));
    assert!(text_before(&chars("Z"), &chars("a")));
    assert!(text_before(&chars("z"), &chars("é")));
}

#[test]
fn positions_sort_by_time_rank_text_then_position() {
    let t = |secs: i64| Timestamp { secs, nanos: 0 };
    let keys = vec![
        SortKey { at: t(5), rank: 1, text: chars("b") },
        SortKey { at: t(5), rank: 0, text: chars("z") },
        SortKey { at: t(1), rank: 9, text: chars("a") },
        SortKey { at: t(5), rank: 1, text: chars("a") },
        SortKey { at: t(5), rank: 1, text: chars("a") },
    ];
    assert!(key_before(&keys, 2, 0));
    assert!(key_before(&keys, 3, 4));
    assert!(!key_before(&keys, 4, 3));
    assert_eq!(sort_positions(&keys, vec![0, 1, 2, 3, 4]), vec![2, 1, 3, 4, 0]);
    assert_eq!(sort_positions(&keys, vec![4, 0, 3]), vec![3, 4, 0]);
    assert_eq!(sort_positions(&keys, Vec::new()), Vec::<usize>::new());
}

#[test]
fn pivot_kinds() {
    assert_eq!(PivotType::High, PivotType::High);
    assert_ne!(PivotType::High, PivotType::Low);
    let copy = PivotType::Low;
    assert_eq!(copy, PivotType::Low);
    let _detector = ABCD;
}

#[test]
fn positions_grouped_by_key_in_key_order() {
    let keys: Vec<String> = ["t|NQZ4", "t|ESZ4", "t|NQZ4", "u|CLF5", "t|ESZ4", "t|NQZ4"]
        .iter()
        .map(|k| k.to_string())
        .collect();
    let groups = group_positions(&keys);
    let got: Vec<(String, Vec<usize>)> = groups.into_iter().map(|g| (g.key, g.positions)).collect();
    assert_eq!(
        got,
        vec![
            ("t|ESZ4".to_string(), vec![1, 4]),
            ("t|NQZ4".to_string(), vec![0, 2, 5]),
            ("u|CLF5".to_string(), vec![3]),
        ]
    );
    assert!(group_positions(&Vec::new()).is_empty());
}

#[test]
fn datetime_settings_read_as_utc() {
    assert_eq!(datetime_setting(None), Ok(None));
    assert_eq!(datetime_setting(Some("   ".to_string())), Ok(None));
    assert_eq!(
        datetime_setting(Some("2024-01-02 03:04:05".to_string())),
        Ok(Some(Timestamp { secs: 1_704_164_645, nanos: 0 }))
    );
    assert_eq!(
        datetime_setting(Some("  1970-01-01 00:00:00\n".to_string())),
        Ok(Some(Timestamp { secs: 0, nanos: 0 }))
    );
    assert_eq!(datetime_setting(Some("2024-01-02".to_string())), Err(()));
    assert_eq!(datetime_setting(Some("2024-13-02 03:04:05".to_string())), Err(()));
    assert_eq!(datetime_setting(Some("2024-01-02T03:04:05".to_string())), Err(()));
}
