use abcd::coverage::{build_coverage_rows, coverage_event, CoverageEvent};
use abcd::order::Timestamp;
use abcd::symbols::SetupSymbols;

fn event(root: &str, tf: &str, contract: &str, secs: i64) -> CoverageEvent {
    CoverageEvent {
        root_symbol: root.to_string(),
        source_timeframe: tf.to_string(),
        contract_symbol: contract.to_string(),
        d_confirm: Timestamp { secs, nanos: 0 },
    }
}

#[test]
fn coverage_event_fallbacks() {
    let symbols = SetupSymbols { root_symbol: None, contract_symbol: Some("  ".to_string()), symbol: " esz4 ".to_string() };
    let at = Timestamp { secs: 100, nanos: 5 };
    let e = coverage_event(&symbols, &Some(" 5m ".to_string()), &Some("1m".to_string()), at);
    assert_eq!(e.root_symbol, "ESZ4");
    assert_eq!(e.source_timeframe, "5m");
    assert_eq!(e.contract_symbol, "esz4");
    assert_eq!(e.d_confirm, at);
    let e = coverage_event(&symbols, &None, &Some("1m".to_string()), at);
    assert_eq!(e.source_timeframe, "1m");
    let blank = SetupSymbols { root_symbol: Some("NQ".to_string()), contract_symbol: None, symbol: " ".to_string() };
    let e = coverage_event(&blank, &Some(" ".to_string()), &None, at);
    assert_eq!(e.root_symbol, "NQ");
    assert_eq!(e.source_timeframe, "unknown");
    assert_eq!(e.contract_symbol, "Unknown");
}

#[test]
fn coverage_rows_by_exchange_then_events() {
    let events = vec![
        event("ES", "1m", "ESZ4", 30),
        event("CL", "1m", "CLF5", 50),
        event("NQ", "1m", "NQZ4", 40),
        event("ES", "1m", "ESZ4", 10),
        event("NQ", "1m", "NQH5", 60),
        event("NQ", "1m", "NQM5", 20),
        event("ES", "5m", "ESH5", 70),
        event("ZZ", "1m", "ZZ1", 5),
    ];
    let rows = build_coverage_rows(&events);
    let order: Vec<(String, String, String, i64, i64)> = rows
        .iter()
        .map(|r| (r.exchange_name.clone(), r.root_symbol.clone(), r.source_timeframe.clone(), r.pattern_count, r.contract_count))
        .collect();
    assert_eq!(
        order,
        vec![
            ("CME".to_string(), "NQ".to_string(), "1m".to_string(), 3, 3),
            ("CME".to_string(), "ES".to_string(), "1m".to_string(), 2, 1),
            ("CME".to_string(), "ES".to_string(), "5m".to_string(), 1, 1),
            ("NYMEX".to_string(), "CL".to_string(), "1m".to_string(), 1, 1),
            ("Unknown".to_string(), "ZZ".to_string(), "1m".to_string(), 1, 1),
        ]
    );
    assert_eq!(rows[0].first_d_confirm, Some(Timestamp { secs: 20, nanos: 0 }));
    assert_eq!(rows[0].last_d_confirm, Some(Timestamp { secs: 60, nanos: 0 }));
    assert_eq!(rows[1].first_d_confirm, Some(Timestamp { secs: 10, nanos: 0 }));
    assert_eq!(rows.iter().map(|r| r.pattern_count).sum::<i64>(), events.len() as i64);
}

#[test]
fn coverage_rows_of_no_events() {
    assert!(build_coverage_rows(&Vec::new()).is_empty());
}
