use abcd::cli::{
    arg_value, arg_value_or_assigned, arg_value_trimmed, flag_value, has_flag, int_setting,
    outcome_year_label, parse_assign_options, parse_int_or_default, parse_outcome_options,
    parse_template_options, symbol_limit_setting, wants_help,
};
use abcd::numeric::IntTextError;

fn args(items: &[&str]) -> Vec<String> {
    items.iter().map(|s| s.to_string()).collect()
}

#[test]
fn option_values() {
    let a = args(&["--symbol", " es ", "--limit", "--year", "2024", "--flag"]);
    assert_eq!(arg_value(&a, "--symbol"), Some(" es ".to_string()));
    assert_eq!(arg_value(&a, "--limit"), Some("--year".to_string()));
    assert_eq!(arg_value(&a, "--flag"), None);
    assert_eq!(arg_value(&a, "--missing"), None);
    assert_eq!(arg_value_trimmed(&a, "--symbol"), Some("es".to_string()));
    assert_eq!(arg_value_trimmed(&args(&["--x", "   "]), "--x"), None);
    assert!(has_flag(&a, "--flag"));
    assert!(!has_flag(&a, "--apply"));
    assert!(wants_help(&args(&["-h"])));
    assert!(wants_help(&args(&["x", "--help"])));
    assert!(!wants_help(&args(&["--helpme"])));
}

#[test]
fn assigned_option_values() {
    assert_eq!(arg_value_or_assigned(&args(&["--run-id=abc"]), "--run-id"), Some("abc".to_string()));
    assert_eq!(arg_value_or_assigned(&args(&["--run-id", "x", "--run-id=abc"]), "--run-id"), Some("x".to_string()));
    assert_eq!(arg_value_or_assigned(&args(&["--run-id"]), "--run-id"), None);
    assert_eq!(arg_value_or_assigned(&args(&["--run-id="]), "--run-id"), Some(String::new()));
}

#[test]
fn template_options_defaults() {
    let o = parse_template_options(&args(&[]));
    assert_eq!(o.source_scope, "all");
    assert_eq!(o.source_timeframe, None);
    assert_eq!((o.start_year, o.end_year, o.period_year), (2025, 2025, 2025));
    assert_eq!(o.limit, 100);
    assert_eq!(o.event_result_policy, "first");
    assert_eq!(o.result_storage, "summary-only");
    assert_eq!(o.risk_basis, "cd_price_length");
    assert_eq!(o.max_hold_multiple, 5);
    assert_eq!(o.entry_kind, "confirmation_plus_n_open");
    assert_eq!(o.entry_offset, None);
    assert_eq!(o.direction_mode, None);
    assert!(!o.skip_condition_stats);
    assert_eq!(o.year_label(), "2025");
    assert_eq!(o.event_limit(), Some(100));
    assert!(!o.stores_raw_results());
}

#[test]
fn template_options_given() {
    let o = parse_template_options(&args(&[
        "--source", "futures_1m", "--tf", "5min", "--start-year", "2026", "--end-year", "2023",
        "--limit", "0", "--event-result-policy", " BEST ", "--store-result-rows", "--risk-basis", "xa",
        "--hold-multiple", "99", "--entry", "pullback", "--offset", "3", "--direction", "reversal",
        "--skip-condition-stats", "--family", "  fam ", "--symbol", " ", "--append-to-run-id", "eetc-1-2",
    ]));
    assert_eq!(o.source_scope, "futures");
    assert_eq!(o.source_timeframe, Some("5m".to_string()));
    assert_eq!((o.start_year, o.end_year, o.period_year), (2023, 2026, 0));
    assert_eq!(o.limit, 0);
    assert_eq!(o.event_limit(), None);
    assert_eq!(o.event_result_policy, "best");
    assert_eq!(o.result_storage, "full");
    assert!(o.stores_raw_results());
    assert_eq!(o.risk_basis, "xa_price_length");
    assert_eq!(o.max_hold_multiple, 50);
    assert_eq!(o.entry_kind, "pullback_retest_d");
    assert_eq!(o.entry_offset, Some(3));
    assert_eq!(o.direction_mode, Some("inverse_pattern".to_string()));
    assert!(o.skip_condition_stats);
    assert_eq!(o.family_key, Some("fam".to_string()));
    assert_eq!(o.symbol, None);
    assert_eq!(o.output_run_id, Some("eetc-1-2".to_string()));
    assert_eq!(o.year_label(), "2023-2026");
}

#[test]
fn template_years_fall_back_to_the_single_year() {
    let o = parse_template_options(&args(&["--year", "2030", "--end-year", "1800"]));
    assert_eq!((o.start_year, o.end_year), (2030, 2030));
    let o = parse_template_options(&args(&["--year", "2024", "--to-year", "2027"]));
    assert_eq!((o.start_year, o.end_year, o.period_year), (2024, 2027, 0));
    let o = parse_template_options(&args(&["--limit", "5000000", "--max-hold-multiple", "-3", "--offset", "0"]));
    assert_eq!(o.limit, 1_000_000);
    assert_eq!(o.max_hold_multiple, 1);
    assert_eq!(o.entry_offset, None);
}

#[test]
fn assign_options() {
    let o = parse_assign_options(&args(&["--contract", " esz5 ", "--year", "2025", "--d-window-minutes", "0", "--apply"])).unwrap();
    assert_eq!(o.symbol, Some("ESZ5".to_string()));
    assert!(!o.all_symbols);
    assert_eq!(o.year, Some(2025));
    assert_eq!(o.list_top, None);
    assert_eq!(o.d_window_minutes, 1);
    assert_eq!(o.wide_d_window_minutes, 60);
    assert_eq!(o.anchor_window_minutes, 240);
    assert!(o.apply);
    let o = parse_assign_options(&args(&["--all-symbols", "--source-table", "  ", "--timeframe", " 5m "])).unwrap();
    assert!(o.all_symbols);
    assert_eq!(o.symbol, None);
    assert_eq!(o.source_table, None);
    assert_eq!(o.timeframe, Some("5m".to_string()));
}

#[test]
fn assign_options_refuse_the_first_bad_integer() {
    assert!(matches!(parse_assign_options(&args(&["--year", "x"])), Err(IntTextError::InvalidDigit)));
    assert!(matches!(
        parse_assign_options(&args(&["--limit", "", "--list-top", "99999999999999999999"])),
        Err(IntTextError::PosOverflow)
    ));
    assert!(matches!(parse_assign_options(&args(&["--anchor-window-minutes", ""])), Err(IntTextError::Empty)));
}

#[test]
fn outcome_options() {
    let o = parse_outcome_options(&args(&[]));
    assert_eq!(o.source_scope, "all");
    assert_eq!(o.source_timeframe, None);
    assert_eq!((o.start_year, o.end_year), (2026, 2026));
    assert_eq!(o.limit, 0);
    assert_eq!(o.max_forward_multiple, 5);
    assert_eq!(o.direction_mode, "inverse_pattern");
    let o = parse_outcome_options(&args(&[
        "--source", " Daily", "--timeframe", "All", "--start-year", " 2027 ", "--year", "2020",
        "--limit", "-4", "--max-hold-multiple", "500", "--direction-mode", "WITH_PATTERN",
    ]));
    assert_eq!(o.source_scope, "daily");
    assert_eq!(o.source_timeframe, None);
    assert_eq!((o.start_year, o.end_year), (2027, 2027));
    assert_eq!(o.limit, 0);
    assert_eq!(o.max_forward_multiple, 100);
    assert_eq!(o.direction_mode, "with_pattern");
    let o = parse_outcome_options(&args(&["--start-year", "2026", "--end-year", "2024", "--direction-mode", "pattern"]));
    assert_eq!((o.start_year, o.end_year), (2024, 2026));
    assert_eq!(o.direction_mode, "inverse_pattern");
    assert_eq!(outcome_year_label(2024, 2026), "2024-2026");
    assert_eq!(outcome_year_label(2025, 2025), "2025");
}

#[test]
fn settings() {
    assert_eq!(parse_int_or_default(None, "500"), Ok(500));
    assert_eq!(parse_int_or_default(Some("7".to_string()), "500"), Ok(7));
    assert_eq!(parse_int_or_default(Some(" 7".to_string()), "500"), Err(IntTextError::InvalidDigit));
    assert!(flag_value(Some(" yes ".to_string())));
    assert!(flag_value(Some("TRUE".to_string())));
    assert!(!flag_value(Some("True".to_string())));
    assert!(!flag_value(None));
    assert_eq!(int_setting(Some(" 12 ".to_string()), 3), Ok(12));
    assert_eq!(int_setting(Some("  ".to_string()), 3), Ok(3));
    assert_eq!(int_setting(None, 3), Ok(3));
    assert_eq!(int_setting(Some("1.5".to_string()), 3), Err(IntTextError::InvalidDigit));
    assert_eq!(symbol_limit_setting(None), Ok(i64::MAX));
    assert_eq!(symbol_limit_setting(Some(" 25 ".to_string())), Ok(25));
    assert_eq!(symbol_limit_setting(Some("  ".to_string())), Err(IntTextError::Empty));
}
