use abcd::routing::{
    contains_text, direction_label, entry_offset_or_one, entry_offset_or_zero, is_duplicate_index_error,
    is_lock_timeout, is_lock_wait, manual_skip_reason, parse_entry_offset, route_status_counts,
    route_status_priority, rule_entry_offset, symbol_gate_counts, template_risk_label,
};

fn strings(items: &[&str]) -> Vec<String> {
    items.iter().map(|s| s.to_string()).collect()
}

#[test]
fn route_priorities() {
    assert_eq!(route_status_priority("TRADE"), 3);
    assert_eq!(route_status_priority("WATCHLIST"), 2);
    assert_eq!(route_status_priority("SKIP"), 1);
    assert_eq!(route_status_priority("trade"), 1);
}

#[test]
fn route_counts_add_up() {
    let st = strings(&["TRADE", "SKIP", "WATCHLIST", "TRADE", "", "trade"]);
    assert_eq!(route_status_counts(&st), (2, 1, 3));
    assert_eq!(symbol_gate_counts(&st), (2, 4));
    let (t, w, o) = route_status_counts(&st);
    assert_eq!((t + w + o) as usize, st.len());
    assert_eq!(route_status_counts(&Vec::new()), (0, 0, 0));
}

#[test]
fn labels() {
    assert_eq!(template_risk_label("xa_price_length"), "XA");
    assert_eq!(template_risk_label("pullback_retest_extreme"), "PB");
    assert_eq!(template_risk_label("cd_price_length"), "CD");
    assert_eq!(direction_label("inverse_pattern"), "INV");
    assert_eq!(direction_label("pattern"), "PAT");
    assert_eq!(manual_skip_reason("  "), "manual family skip");
    assert_eq!(manual_skip_reason(" too noisy "), "manual family skip: too noisy");
}

#[test]
fn entry_offsets_from_rules() {
    let rule = r#"{"entry":{"offset_from_confirmation":3,"kind":"x"}}"#;
    assert_eq!(parse_entry_offset(rule), 3);
    assert_eq!(rule_entry_offset(rule), 3);
    let zero = r#"{"entry":{"offset_from_confirmation":0}}"#;
    assert_eq!(parse_entry_offset(zero), 1);
    assert_eq!(rule_entry_offset(zero), 0);
    let negative = r#"{"entry":{"offset_from_confirmation":-2}}"#;
    assert_eq!(parse_entry_offset(negative), 1);
    assert_eq!(rule_entry_offset(negative), -2);
    assert_eq!(parse_entry_offset(r#"{"entry":{}}"#), 1);
    assert_eq!(rule_entry_offset(r#"{"entry":{"offset_from_confirmation":"2"}}"#), 0);
    assert_eq!(parse_entry_offset("not json"), 1);
    assert_eq!(rule_entry_offset("not json"), 0);
    assert_eq!(rule_entry_offset(r#"{"entry":{"offset_from_confirmation":2.5}}"#), 0);
}

#[test]
fn offsets_from_found_values() {
    assert_eq!(entry_offset_or_one(Some(7)), 7);
    assert_eq!(entry_offset_or_one(Some(-7)), 1);
    assert_eq!(entry_offset_or_one(None), 1);
    assert_eq!(entry_offset_or_zero(Some(-7)), -7);
    assert_eq!(entry_offset_or_zero(None), 0);
}

#[test]
fn database_reports() {
    let hy = Some("HY000".to_string());
    assert!(contains_text("error 1205 (HY000)", "1205"));
    assert!(contains_text("abc", ""));
    assert!(!contains_text("ab", "abc"));
    assert!(is_lock_timeout(hy.clone(), "Error 1205: Lock wait timeout exceeded"));
    assert!(!is_lock_timeout(hy.clone(), "deadlock"));
    assert!(!is_lock_timeout(None, "1205"));
    assert!(is_lock_wait(None, "Lock wait timeout exceeded"));
    assert!(is_lock_wait(None, "code 1205"));
    assert!(is_lock_wait(hy.clone(), "anything"));
    assert!(!is_lock_wait(Some("42000".to_string()), "deadlock"));
    assert!(is_duplicate_index_error(Some("1061".to_string()), "Duplicate key name 'idx_a'"));
    assert!(is_duplicate_index_error(Some("42000".to_string()), "x Duplicate key name y"));
    assert!(!is_duplicate_index_error(hy, "Duplicate key name 'idx_a'"));
    assert!(!is_duplicate_index_error(Some("1061".to_string()), "duplicate key name"));
}
