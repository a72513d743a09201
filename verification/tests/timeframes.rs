use abcd::timeframes::{
    futures_candle_table_for_timeframe, normalize_timeframe_text, parse_timeframe,
    parse_trend_timeframe, requested_timeframes, requested_trend_timeframes, timeframe_at,
    trend_timeframe_at, TimeframeListError, TrendTimeframe,
};

#[test]
fn timeframe_spellings_reduce_to_short_forms() {
    assert_eq!(normalize_timeframe_text(" 15 Minutes "), "15m");
    assert_eq!(normalize_timeframe_text("1 hour"), "1h");
    assert_eq!(normalize_timeframe_text("4-Hours"), "4h");
    assert_eq!(normalize_timeframe_text("2 hrs"), "2h");
    assert_eq!(normalize_timeframe_text("1mins"), "1m");
    assert_eq!(normalize_timeframe_text("Daily"), "daily");
    assert_eq!(normalize_timeframe_text("12_HR"), "12h");
}

#[test]
fn timeframes_parse_to_their_tables() {
    let t = parse_timeframe("15 minutes").unwrap();
    assert_eq!(t.label, "15m");
    assert_eq!(t.table_name, "futures_contract_15m_candles");
    assert_eq!(t.index_prefix, "futures_15m");
    assert_eq!(t.minutes, 15);
    let d = parse_timeframe("Daily").unwrap();
    assert_eq!(d.label, "1d");
    assert_eq!(d.minutes, 1440);
    assert_eq!(parse_timeframe("60").unwrap().label, "1h");
    assert_eq!(parse_timeframe("240m").unwrap().minutes, 240);
    assert!(parse_timeframe("1m").is_none());
    assert!(parse_timeframe("2h").is_none());
    assert!(parse_timeframe("").is_none());
}

#[test]
fn every_label_parses_back_to_its_timeframe() {
    for i in 0..19 {
        let t = timeframe_at(i);
        let back = parse_timeframe(t.label).unwrap();
        assert_eq!(back.label, t.label);
        assert_eq!(back.table_name, t.table_name);
        assert_eq!(back.minutes, t.minutes);
        assert_eq!(t.table_name, format!("futures_contract_{}_candles", t.label));
        assert_eq!(t.index_prefix, format!("futures_{}", t.label));
    }
    for i in 0..3 {
        let t = trend_timeframe_at(i);
        let back = parse_trend_timeframe(t.label).unwrap();
        assert_eq!(back.timeframe, t.timeframe);
    }
}

#[test]
fn inspected_tables() {
    assert_eq!(futures_candle_table_for_timeframe("3m"), "futures_contract_3m_candles");
    assert_eq!(futures_candle_table_for_timeframe("1 Hour"), "futures_contract_1h_candles");
    assert_eq!(futures_candle_table_for_timeframe("day"), "futures_contract_1d_candles");
    assert_eq!(futures_candle_table_for_timeframe("2m"), "futures_contract_1m_candles");
    assert_eq!(futures_candle_table_for_timeframe("1m"), "futures_contract_1m_candles");
}

#[test]
fn timeframe_lists_keep_first_order_without_repeats() {
    let specs = requested_timeframes("5m, 15m,,5,1 hour,15").unwrap();
    let labels: Vec<&str> = specs.iter().map(|s| s.label).collect();
    assert_eq!(labels, vec!["5m", "15m", "1h"]);
    let all = requested_timeframes("5m,15m,30m,1h,4h,12h,1d").unwrap();
    assert_eq!(all.len(), 7);
}

#[test]
fn timeframe_list_errors() {
    match requested_timeframes("5m, 2h ,1h") {
        Err(TimeframeListError::Unsupported(piece)) => assert_eq!(piece, "2h"),
        _ => panic!("expected an unsupported timeframe"),
    }
    assert!(matches!(requested_timeframes(" , ,"), Err(TimeframeListError::Empty)));
    assert!(matches!(requested_timeframes(""), Err(TimeframeListError::Empty)));
}

#[test]
fn trend_timeframe_lists() {
    let specs = requested_trend_timeframes("1h, 5, 5m").unwrap();
    let kinds: Vec<TrendTimeframe> = specs.iter().map(|s| s.timeframe).collect();
    assert_eq!(kinds, vec![TrendTimeframe::OneHour, TrendTimeframe::FiveMinute]);
    assert_eq!(specs[0].source_table, "futures_contract_1h_candles");
    match requested_trend_timeframes("4h") {
        Err(TimeframeListError::Unsupported(piece)) => assert_eq!(piece, "4h"),
        _ => panic!("expected an unsupported timeframe"),
    }
    assert!(parse_trend_timeframe("15 min").is_some());
    assert!(parse_trend_timeframe("30m").is_none());
}
