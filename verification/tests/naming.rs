use abcd::naming::{
    candle_group_key, default_source_table, futures_candle_table, outcome_mode, plain_identifier, quoted_identifier,
    ratio_expr, result_table_name_for_run, stamped_run_id, template_uid,
};

#[test]
fn result_table_names_are_lowered_and_underscored() {
    assert_eq!(
        result_table_name_for_run("eetc-1712345678901-4242"),
        "entry_exit_template_results_eetc_1712345678901_4242"
    );
    assert_eq!(result_table_name_for_run("Run.A b"), "entry_exit_template_results_run_a_b");
    assert_eq!(result_table_name_for_run(""), "entry_exit_template_results_");
    assert_eq!(result_table_name_for_run("é"), "entry_exit_template_results__");
}

#[test]
fn result_table_names_can_be_quoted() {
    let name = result_table_name_for_run("X-1");
    assert_eq!(quoted_identifier(&name), "`entry_exit_template_results_x_1`");
    assert_eq!(quoted_identifier("pattern_setups"), "`pattern_setups`");
}

#[test]
fn template_uid_strips_creator_prefix_and_pads() {
    assert_eq!(template_uid("eetc-17-9", 7), "tpl-17-9-0007");
    assert_eq!(template_uid("eetc-eetc-abc", 12), "tpl-abc-0012");
    assert_eq!(template_uid("run", 12345), "tpl-run-12345");
    assert_eq!(template_uid("run", 0), "tpl-run-0000");
    assert_eq!(template_uid("xeetc-", 1), "tpl-xeetc--0001");
}

#[test]
fn template_uids_differ_by_sequence() {
    let uids: Vec<String> = (0..1200).map(|n| template_uid("eetc-5-6", n)).collect();
    for i in 0..uids.len() {
        for j in (i + 1)..uids.len().min(i + 30) {
            assert_ne!(uids[i], uids[j]);
        }
    }
    assert_ne!(template_uid("r", 9999), template_uid("r", 10000));
}

#[test]
fn futures_candle_table_keeps_known_tables() {
    assert_eq!(futures_candle_table(Some("futures_contract_5m_candles")), "futures_contract_5m_candles");
    assert_eq!(futures_candle_table(Some("futures_contract_1d_candles")), "futures_contract_1d_candles");
    assert_eq!(futures_candle_table(Some("futures_contract_2m_candles")), "futures_contract_1m_candles");
    assert_eq!(futures_candle_table(Some("candles_daily")), "futures_contract_1m_candles");
    assert_eq!(futures_candle_table(None), "futures_contract_1m_candles");
}

#[test]
fn small_names() {
    assert_eq!(default_source_table("15m"), "futures_contract_15m_candles");
    assert_eq!(outcome_mode("pattern"), "c1_open_xa_trade_pattern");
    assert_eq!(candle_group_key(Some("futures_contract_1m_candles"), "ESZ5"), "futures_contract_1m_candles|ESZ5");
    assert_eq!(candle_group_key(None, "NQH6"), "|NQH6");
}

#[test]
fn stamped_run_ids() {
    assert_eq!(stamped_run_id("eetc", 1712345678901, 4242), "eetc-1712345678901-4242");
    assert_eq!(stamped_run_id("eepb", 0, 0), "eepb-0-0");
    assert_ne!(stamped_run_id("eetc", 10, 5), stamped_run_id("eetc", 1, 5));
    assert_ne!(stamped_run_id("eetc", 1, 15), stamped_run_id("eetc", 11, 5));
}

#[test]
fn ratio_expression_text() {
    assert_eq!(
        ratio_expr("a_length", "x_length"),
        "CASE\n            WHEN COALESCE(x_length, 0.0) > 0\n            THEN (CAST(a_length AS DOUBLE) / CAST(x_length AS DOUBLE)) * 100.0\n            ELSE 0.0\n        END"
    );
}

#[test]
fn plain_identifiers() {
    assert!(plain_identifier("entry_exit_template_results_eetc_17"));
    assert!(plain_identifier(""));
    assert!(!plain_identifier("results-1"));
    assert!(!plain_identifier("drop table`"));
    assert!(!plain_identifier("caf\u{e9}"));
}
