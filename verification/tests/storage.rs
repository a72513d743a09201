use abcd::storage::{
    exact_rows_sql, futures_root_sql, key_before, setup_contract_sql, setup_market_sql, setup_pattern_sql,
    setup_root, setup_root_sql, summarize_rows, summary_rows_fit, table_byte_counts, SummaryRow,
};

fn row(key: &[&str], setup_count: i64, first: Option<&str>, last: Option<&str>) -> SummaryRow {
    SummaryRow {
        key: key.iter().map(|part| part.to_string()).collect(),
        setup_count,
        first_d_date: first.map(str::to_string),
        last_d_date: last.map(str::to_string),
    }
}

#[test]
fn summarize_rows_totals_each_root_in_key_order() {
    let rows = vec![
        row(&["NQ"], 7, Some("2024-03-01"), Some("2024-05-01")),
        row(&["ES"], 10, Some("2024-02-01"), Some("2024-04-01")),
        row(&["NQ"], 3, Some("2024-01-15"), None),
        row(&["CL"], 1, None, None),
        row(&["ES"], 5, None, Some("2024-06-30")),
    ];
    assert!(summary_rows_fit(&rows));
    let totals = summarize_rows(&rows);
    let keys: Vec<&str> = totals.iter().map(|t| t.key[0].as_str()).collect();
    assert_eq!(keys, vec!["CL", "ES", "NQ"]);
    assert_eq!((totals[1].group_count, totals[1].setup_count), (2, 15));
    assert_eq!(totals[1].first_d_date.as_deref(), Some("2024-02-01"));
    assert_eq!(totals[1].last_d_date.as_deref(), Some("2024-06-30"));
    assert_eq!((totals[2].group_count, totals[2].setup_count), (2, 10));
    assert_eq!(totals[2].first_d_date.as_deref(), Some("2024-01-15"));
    assert_eq!(totals[2].last_d_date.as_deref(), Some("2024-05-01"));
    assert_eq!(totals[0].first_d_date, None);
}

#[test]
fn summarize_rows_orders_keys_part_by_part() {
    let rows = vec![
        row(&["ES", "ESZ4", "5m"], 1, None, None),
        row(&["ES", "ESH5", "1m"], 2, None, None),
        row(&["ES", "ESH5", "15m"], 4, None, None),
        row(&["ES", "ESZ4", "5m"], 8, None, None),
    ];
    let totals = summarize_rows(&rows);
    let keys: Vec<String> = totals.iter().map(|t| t.key.join("/")).collect();
    assert_eq!(keys, vec!["ES/ESH5/15m", "ES/ESH5/1m", "ES/ESZ4/5m"]);
    assert_eq!(totals[2].setup_count, 9);
    assert!(key_before(&totals[0].key, &totals[1].key));
    assert!(!key_before(&totals[1].key, &totals[0].key));
}

#[test]
fn summary_overflow_is_detected() {
    let rows = vec![row(&["ES"], i64::MAX, None, None), row(&["NQ"], 1, None, None), row(&["ES"], 1, None, None)];
    assert!(!summary_rows_fit(&rows));
    let rows = vec![row(&["ES"], i64::MAX, None, None), row(&["NQ"], 1, None, None)];
    assert!(summary_rows_fit(&rows));
}

#[test]
fn setup_root_prefers_stored_root() {
    assert_eq!(setup_root("GC", "MGCZ4"), "GC");
    assert_eq!(setup_root("  ", " esz4 "), "ES");
    assert_eq!(setup_root("", "6EH5"), "6E");
}

#[test]
fn storage_grouping_queries() {
    assert_eq!(
        setup_root_sql("pattern_setups", true, false),
        "SELECT COALESCE(NULLIF(root_symbol, ''), '') AS stored_root_symbol, symbol AS contract_symbol, COUNT(*) AS setup_count, CAST(MIN(d_date) AS CHAR) AS first_d_date, CAST(MAX(d_date) AS CHAR) AS last_d_date FROM pattern_setups GROUP BY COALESCE(NULLIF(root_symbol, ''), ''), symbol ORDER BY setup_count DESC, contract_symbol ASC"
    );
    assert_eq!(
        setup_contract_sql("t", false, true, false),
        "SELECT '' AS stored_root_symbol, COALESCE(NULLIF(contract_symbol, ''), symbol) AS contract_symbol, 'unknown' AS source_timeframe, COUNT(*) AS setup_count, CAST(MIN(d_date) AS CHAR) AS first_d_date, CAST(MAX(d_date) AS CHAR) AS last_d_date FROM t GROUP BY '', COALESCE(NULLIF(contract_symbol, ''), symbol), 'unknown' ORDER BY setup_count DESC, contract_symbol ASC, source_timeframe ASC"
    );
    assert!(setup_pattern_sql("t", true, true, true).contains(
        "GROUP BY COALESCE(NULLIF(root_symbol, ''), ''), COALESCE(NULLIF(contract_symbol, ''), symbol), COALESCE(NULLIF(source_timeframe, ''), 'unknown'), COALESCE(NULLIF(market, ''), 'Unknown')"
    ));
    assert_eq!(
        setup_market_sql("t"),
        "SELECT market, harmonic_type, COUNT(*) AS setup_count FROM t GROUP BY market, harmonic_type ORDER BY setup_count DESC, market ASC, harmonic_type ASC"
    );
    assert!(futures_root_sql("futures_contract_1m_candles").contains("FROM futures_contract_1m_candles GROUP BY root_symbol"));
    assert_eq!(exact_rows_sql("x"), "SELECT COUNT(*) AS exact_rows FROM x");
}

#[test]
fn table_bytes_count_negative_as_none() {
    assert_eq!(table_byte_counts(100, 20), (100, 20, 120));
    assert_eq!(table_byte_counts(-5, 20), (0, 20, 20));
    assert_eq!(table_byte_counts(i64::MAX, i64::MAX), (i64::MAX as u64, i64::MAX as u64, 2 * (i64::MAX as u64)));
}

#[test]
fn summary_totals_keep_every_group_and_setup() {
    let rows = vec![
        row(&["GC"], 4, None, None),
        row(&["SI"], 9, None, None),
        row(&["GC"], 6, None, None),
        row(&["HG"], 0, None, None),
        row(&["SI"], 1, None, None),
    ];
    let totals = summarize_rows(&rows);
    assert_eq!(totals.iter().map(|t| t.group_count).sum::<i64>(), 5);
    assert_eq!(totals.iter().map(|t| t.setup_count).sum::<i64>(), 20);
}
