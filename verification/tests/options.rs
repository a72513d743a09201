use abcd::options::{
    fold_text, normalize_direction_mode, normalize_entry_kind, normalize_outcome_timeframe,
    normalize_risk_basis, normalize_source, normalize_source_scope, normalize_timeframe,
};

fn s(v: &str) -> Option<String> {
    Some(v.to_string())
}

#[test]
fn fold_trims_and_lowers() {
    assert_eq!(fold_text("  Futures_1M \n"), "futures_1m".chars().collect::<Vec<char>>());
    assert_eq!(fold_text("ÄB"), "Äb".chars().collect::<Vec<char>>());
}

#[test]
fn source_scopes() {
    assert_eq!(normalize_source_scope(s(" FUTURES ")), "futures");
    assert_eq!(normalize_source_scope(s("futures_1m")), "futures");
    assert_eq!(normalize_source_scope(s("Candles_Daily")), "daily");
    assert_eq!(normalize_source_scope(s("daily")), "daily");
    assert_eq!(normalize_source_scope(s("weekly")), "all");
    assert_eq!(normalize_source_scope(None), "all");
}

#[test]
fn sources() {
    assert_eq!(normalize_source(s("Futures")), "futures");
    assert_eq!(normalize_source(s("daily ")), "daily");
    assert_eq!(normalize_source(s("futures_1m")), "all");
    assert_eq!(normalize_source(None), "all");
}

#[test]
fn pattern_timeframes() {
    assert_eq!(normalize_timeframe(s("1")), s("1m"));
    assert_eq!(normalize_timeframe(s(" 1-Minute")), s("1m"));
    assert_eq!(normalize_timeframe(s("5min")), s("5m"));
    assert_eq!(normalize_timeframe(s("DAY")), s("daily"));
    assert_eq!(normalize_timeframe(s("1d")), s("daily"));
    assert_eq!(normalize_timeframe(s(" 15M ")), s("15m"));
    assert_eq!(normalize_timeframe(s("   ")), None);
    assert_eq!(normalize_timeframe(None), None);
}

#[test]
fn outcome_timeframes() {
    assert_eq!(normalize_outcome_timeframe(s(" 5M")), s("5m"));
    assert_eq!(normalize_outcome_timeframe(s("ALL")), None);
    assert_eq!(normalize_outcome_timeframe(s("")), None);
    assert_eq!(normalize_outcome_timeframe(None), None);
}

#[test]
fn risk_bases() {
    assert_eq!(normalize_risk_basis(s("XA")), "xa_price_length");
    assert_eq!(normalize_risk_basis(s("x_to_a")), "xa_price_length");
    assert_eq!(normalize_risk_basis(s("cd")), "cd_price_length");
    assert_eq!(normalize_risk_basis(None), "cd_price_length");
}

#[test]
fn entry_kinds() {
    assert_eq!(normalize_entry_kind(s("Pullback")), "pullback_retest_d");
    assert_eq!(normalize_entry_kind(s("retest-d")), "pullback_retest_d");
    assert_eq!(normalize_entry_kind(s("market")), "confirmation_plus_n_open");
    assert_eq!(normalize_entry_kind(None), "confirmation_plus_n_open");
}

#[test]
fn direction_modes() {
    assert_eq!(normalize_direction_mode(s("with_pattern")), s("pattern"));
    assert_eq!(normalize_direction_mode(s(" XA_Reversal ")), s("inverse_pattern"));
    assert_eq!(normalize_direction_mode(s("both")), None);
    assert_eq!(normalize_direction_mode(None), None);
}

#[test]
fn normalizing_twice_is_normalizing_once() {
    for raw in ["FUTURES", "candles_daily", "x", " 1-min", "Hourly ", "all", "XA", "retest_d", "reversal", ""] {
        let v = s(raw);
        let scope = normalize_source_scope(v.clone());
        assert_eq!(normalize_source_scope(Some(scope.clone())), scope);
        let source = normalize_source(v.clone());
        assert_eq!(normalize_source(Some(source.clone())), source);
        if let Some(tf) = normalize_timeframe(v.clone()) {
            assert_eq!(normalize_timeframe(Some(tf.clone())), Some(tf));
        }
        if let Some(tf) = normalize_outcome_timeframe(v.clone()) {
            assert_eq!(normalize_outcome_timeframe(Some(tf.clone())), Some(tf));
        }
        let risk = normalize_risk_basis(v.clone());
        assert_eq!(normalize_risk_basis(Some(risk.clone())), risk);
        let entry = normalize_entry_kind(v.clone());
        assert_eq!(normalize_entry_kind(Some(entry.clone())), entry);
        if let Some(mode) = normalize_direction_mode(v.clone()) {
            assert_eq!(normalize_direction_mode(Some(mode.clone())), Some(mode));
        }
    }
}
