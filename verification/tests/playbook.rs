use abcd::numeric::IntTextError;
use abcd::playbook::{
    add_gate_counts, apply_manual_family_skips, gate_root, manual_skip_list, parse_playbook_options,
    trade_template_uids, GateTotals, RouteChoice,
};

fn args(items: &[&str]) -> Vec<String> {
    items.iter().map(|item| item.to_string()).collect()
}

fn choice(family: &str, uid: &str, status: &str, reason: &str) -> RouteChoice {
    RouteChoice {
        family_key: family.to_string(),
        template_uid: uid.to_string(),
        route_status: status.to_string(),
        status_reason: reason.to_string(),
    }
}

#[test]
fn playbook_options_defaults() {
    let opts = parse_playbook_options(&args(&[])).unwrap();
    assert_eq!(opts.build_id, None);
    assert_eq!(opts.source_scope, "futures");
    assert_eq!(opts.source_timeframe, None);
    assert_eq!(opts.min_train_tests, 25);
    assert_eq!(opts.trade_min_tests, 50);
    assert_eq!(opts.watchlist_min_tests, 25);
    assert_eq!(opts.symbol_min_tests, 1000);
    assert_eq!(opts.trade_cooldown_minutes, 0);
    assert_eq!(opts.loss_cluster_loss_count, 3);
    assert_eq!(opts.loss_cluster_window_minutes, 60);
    assert!(!opts.prop_filter);
    assert!(!opts.ignore_manual_family_skips);
}

#[test]
fn playbook_options_given() {
    let opts = parse_playbook_options(&args(&[
        "--train-run-id", " eetc-7 ", "--source", "stocks", "--timeframe", " 5m ", "--prop-filter",
        "--min-trade-gap-minutes", "-4", "--loss-cluster-loss-count", "0", "--loss-cluster-window-minutes", "90",
        "--symbol-filter", "--one-trade-per-minute",
    ]))
    .unwrap();
    assert_eq!(opts.build_id.as_deref(), Some("eetc-7"));
    assert_eq!(opts.source_scope, "stocks");
    assert_eq!(opts.source_timeframe.as_deref(), Some("5m"));
    assert!(opts.prop_filter && opts.symbol_filter && opts.one_trade_per_minute);
    assert_eq!(opts.trade_cooldown_minutes, 0);
    assert_eq!(opts.loss_cluster_loss_count, 1);
    assert_eq!(opts.loss_cluster_window_minutes, 90);
}

#[test]
fn playbook_timeframe_all_means_every_timeframe() {
    let opts = parse_playbook_options(&args(&["--source-timeframe", "ALL", "--timeframe", "1m"])).unwrap();
    assert_eq!(opts.source_timeframe, None);
}

#[test]
fn playbook_first_bad_integer_is_reported() {
    let result = parse_playbook_options(&args(&["--symbol-min-tests", "lots", "--trade-min-tests", "+"]));
    assert!(matches!(result, Err(IntTextError::InvalidDigit)));
    let result = parse_playbook_options(&args(&["--loss-cluster-window-minutes", "99999999999999999999"]));
    assert!(matches!(result, Err(IntTextError::PosOverflow)));
}

#[test]
fn manual_skips_trim_drop_blank_and_keep_last_reason() {
    let rows = vec![
        (" fam-a ".to_string(), "first".to_string()),
        ("   ".to_string(), "blank".to_string()),
        ("fam-b".to_string(), "".to_string()),
        ("fam-a".to_string(), "second".to_string()),
    ];
    let skips = manual_skip_list(&rows);
    assert_eq!(
        skips,
        vec![("fam-a".to_string(), "second".to_string()), ("fam-b".to_string(), "".to_string())]
    );
}

#[test]
fn manual_skips_route_families_to_skip() {
    let mut choices = vec![
        choice("fam-a", "t1", "TRADE", "good"),
        choice("fam-b", "t2", "WATCHLIST", "close"),
        choice("fam-c", "t3", "TRADE", "fine"),
    ];
    let skips = vec![
        ("fam-b".to_string(), "  too noisy ".to_string()),
        ("fam-z".to_string(), "gone".to_string()),
        ("fam-c".to_string(), " ".to_string()),
    ];
    let applied = apply_manual_family_skips(&mut choices, &skips);
    assert_eq!(applied, 2);
    assert_eq!(choices[0].route_status, "TRADE");
    assert_eq!(choices[0].status_reason, "good");
    assert_eq!(choices[1].route_status, "SKIP");
    assert_eq!(choices[1].status_reason, "manual family skip: too noisy");
    assert_eq!(choices[2].route_status, "SKIP");
    assert_eq!(choices[2].status_reason, "manual family skip");
    assert_eq!(choices[2].template_uid, "t3");
}

#[test]
fn trade_uids_once_each() {
    let choices = vec![
        choice("a", "t1", "TRADE", ""),
        choice("b", "t2", "SKIP", ""),
        choice("c", "t1", "TRADE", ""),
        choice("d", "t3", "TRADE", ""),
        choice("e", "t4", "WATCHLIST", ""),
    ];
    assert_eq!(trade_template_uids(&choices), vec!["t1".to_string(), "t3".to_string()]);
}

#[test]
fn gate_roots() {
    assert_eq!(gate_root(" es ").as_deref(), Some("ES"));
    assert_eq!(gate_root("unknown"), None);
    assert_eq!(gate_root(" n/a"), None);
    assert_eq!(gate_root("  "), None);
}

#[test]
fn gate_counts_add_per_root() {
    let mut totals: Vec<GateTotals> = Vec::new();
    assert_eq!(add_gate_counts(&mut totals, "ES".to_string(), 10, 3, 6, 1), 0);
    assert_eq!(add_gate_counts(&mut totals, "NQ".to_string(), 4, 1, 2, 1), 1);
    assert_eq!(add_gate_counts(&mut totals, "ES".to_string(), 5, 2, 2, 1), 0);
    assert_eq!(totals.len(), 2);
    assert_eq!(
        (totals[0].eval_count, totals[0].pass_count, totals[0].fail_count, totals[0].no_entry_count),
        (15, 5, 8, 2)
    );
    assert_eq!(totals[1].eval_count, 4);
}
