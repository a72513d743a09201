use abcd::condition_stats::{
    condition_values, creator_condition_values, record_condition, ConditionFields, ConditionTotals, CreatorResultFields,
    OutcomeCounts,
};
use abcd::conditions::CalendarStamp;

fn s(v: &str) -> Option<String> {
    Some(v.to_string())
}

#[test]
fn conditions_of_a_result() {
    let fields = ConditionFields {
        market: s(" Bullish "),
        symbol: s("ESZ5"),
        root_symbol: s("  "),
        source_timeframe: None,
        family_harmonic_type: None,
        harmonic_type: s("Gartley"),
        family_bin: s("bin-3"),
        family_size_bucket: s(""),
        family_time_bin: s("fast"),
        family_x_strictness: s("strict"),
        three_month: Some(1),
        six_month: Some(0),
        twelve_month: None,
        trade_direction: s("long"),
        exit_reason: s("target"),
        d_confirm: CalendarStamp::from_parts(2025, 11, 7),
        full_pattern_length: Some(64),
    };
    let got: Vec<(String, String)> =
        condition_values(&fields).into_iter().map(|(t, v)| (t.to_string(), v)).collect();
    let want: Vec<(String, String)> = [
        ("market", "Bullish"),
        ("symbol", "ESZ5"),
        ("root_symbol", "ESZ5"),
        ("source_timeframe", "Unknown"),
        ("harmonic_type", "Gartley"),
        ("family_bin", "bin-3"),
        ("family_size_bucket", "Unknown"),
        ("family_time_bin", "fast"),
        ("family_x_strictness", "strict"),
        ("trend_3m", "Bullish"),
        ("trend_6m", "Bearish"),
        ("trend_12m", "Unknown"),
        ("trade_direction", "long"),
        ("exit_reason", "target"),
        ("confirm_year", "2025"),
        ("confirm_quarter", "2025-Q4"),
        ("confirm_session", "Pre-Market"),
        ("pattern_length_bucket", "51-100 bars"),
    ]
    .iter()
    .map(|(t, v)| (t.to_string(), v.to_string()))
    .collect();
    assert_eq!(got, want);
}

#[test]
fn outcome_counts() {
    let mut c = OutcomeCounts::new();
    for outcome in ["pass", "fail", "pass", "no_entry", "open", "PASS"] {
        c.record(outcome);
    }
    assert_eq!(c, OutcomeCounts { eval_count: 6, pass_count: 2, fail_count: 1, no_entry_count: 1 });
}

#[test]
fn condition_totals_in_key_order() {
    let mut totals: Vec<ConditionTotals> = Vec::new();
    assert_eq!(record_condition(&mut totals, "tpl-2", "market", "Bullish".to_string(), "pass"), Some((0, true)));
    assert_eq!(record_condition(&mut totals, "tpl-1", "symbol", "ESZ5".to_string(), "fail"), Some((0, true)));
    assert_eq!(record_condition(&mut totals, "tpl-1", "market", "Bearish".to_string(), "no_entry"), Some((0, true)));
    assert_eq!(record_condition(&mut totals, "tpl-2", "market", "Bullish".to_string(), "fail"), Some((2, false)));
    let keys: Vec<String> = totals.iter().map(|t| t.key.join("|")).collect();
    assert_eq!(keys, vec!["tpl-1|market|Bearish", "tpl-1|symbol|ESZ5", "tpl-2|market|Bullish"]);
    let c = totals[2].counts;
    assert_eq!((c.eval_count, c.pass_count, c.fail_count, c.no_entry_count), (2, 1, 1, 0));
    assert_eq!(totals[0].counts.no_entry_count, 1);
}

#[test]
fn condition_totals_refuse_overflow() {
    let mut totals = vec![ConditionTotals {
        key: vec!["t".to_string(), "market".to_string(), "Bullish".to_string()],
        counts: OutcomeCounts { eval_count: i64::MAX, pass_count: 0, fail_count: 0, no_entry_count: 0 },
    }];
    assert_eq!(record_condition(&mut totals, "t", "market", "Bullish".to_string(), "pass"), None);
    assert_eq!(totals[0].counts.pass_count, 0);
    assert_eq!(record_condition(&mut totals, "t", "market", "Bearish".to_string(), "pass"), Some((0, true)));
}

#[test]
fn creator_conditions_of_a_result() {
    let fields = CreatorResultFields {
        market: " Bullish".to_string(),
        pattern_family_key: None,
        symbol: "ESZ5".to_string(),
        root_symbol: "ES".to_string(),
        exchange_name: "CME".to_string(),
        source_timeframe: "5m".to_string(),
        trade_direction: Some(" ".to_string()),
        exit_reason: "target".to_string(),
        d_confirm: CalendarStamp::from_parts(2024, 3, 14).unwrap(),
    };
    let got: Vec<(String, String)> =
        creator_condition_values(&fields).into_iter().map(|(t, v)| (t.to_string(), v)).collect();
    let want: Vec<(String, String)> = [
        ("market", "Bullish"),
        ("pattern_family_key", "Unknown"),
        ("symbol", "ESZ5"),
        ("root_symbol", "ES"),
        ("exchange", "CME"),
        ("source_timeframe", "5m"),
        ("trade_direction", "Unknown"),
        ("exit_reason", "target"),
        ("confirm_year", "2024"),
        ("confirm_session", "Regular"),
    ]
    .iter()
    .map(|(t, v)| (t.to_string(), v.to_string()))
    .collect();
    assert_eq!(got, want);
}
