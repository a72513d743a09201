use abcd::candle_sql::{clear_symbol_sql, outcome_patterns_sql, rebuild_symbol_sql, target_table_sql};
use abcd::contracts::{record_contract, RootEntry, RootSummary};
use abcd::retries::{delete_step, truncate_retry_delay, BatchAction, BatchOutcome, DeleteProgress};
use abcd::timeframes::parse_timeframe;

#[test]
fn aggregate_table_sql() {
    let spec = parse_timeframe("15m").unwrap();
    let ddl = target_table_sql(&spec);
    assert!(ddl.starts_with("CREATE TABLE IF NOT EXISTS futures_contract_15m_candles ("));
    assert!(ddl.contains("INDEX idx_futures_15m_root_ts (root_symbol, ts_utc)"));
    assert!(ddl.ends_with("INDEX idx_futures_15m_ts (ts_utc))"));
    assert_eq!(
        clear_symbol_sql(&spec, false, false),
        "DELETE FROM futures_contract_15m_candles WHERE symbol = ?"
    );
    assert_eq!(
        clear_symbol_sql(&spec, true, true),
        "DELETE FROM futures_contract_15m_candles WHERE symbol = ? AND ts_utc >= ? AND ts_utc < ?"
    );
    assert_eq!(
        clear_symbol_sql(&spec, false, true),
        "DELETE FROM futures_contract_15m_candles WHERE symbol = ? AND ts_utc < ?"
    );
    let rebuild = rebuild_symbol_sql(&spec, true, false);
    assert!(rebuild.starts_with("INSERT INTO futures_contract_15m_candles ("));
    assert!(rebuild.contains("TIMESTAMPDIFF(MINUTE, '1970-01-01 00:00:00', ts_utc) / 15) * 15, '1970-01-01 00:00:00')"));
    assert!(rebuild.contains("WHERE symbol = ? AND ts_utc >= ? GROUP BY symbol, bucket_ts) agg"));
    assert_eq!(rebuild.matches('?').count(), 2);
    let daily = rebuild_symbol_sql(&parse_timeframe("1d").unwrap(), false, false);
    assert!(daily.contains("/ 1440) * 1440"));
    assert_eq!(daily.matches('?').count(), 1);
}

#[test]
fn outcome_pattern_queries() {
    let all = outcome_patterns_sql("all", true, false, false);
    assert!(all.contains("AND YEAR(COALESCE(ps.d_confirm_date, ps.d_date)) = ?"));
    assert!(!all.contains("LIKE 'futures_contract_%_candles'"));
    assert!(all.ends_with("ORDER BY COALESCE(ps.d_confirm_date, ps.d_date) ASC, ps.setup_id ASC"));
    assert_eq!(all.matches('?').count(), 1);
    let futures = outcome_patterns_sql("futures", false, true, true);
    assert!(futures.contains(" AND COALESCE(ps.source_table, '') LIKE 'futures_contract_%_candles' AND YEAR("));
    assert!(futures.contains("BETWEEN ? AND ?"));
    assert!(futures.contains("'unknown') = ?"));
    assert!(futures.ends_with(" LIMIT ?"));
    assert_eq!(futures.matches('?').count(), 4);
    let daily = outcome_patterns_sql("daily", true, false, false);
    assert!(daily.contains("COALESCE(ps.source_timeframe, '') = 'daily'"));
}

#[test]
fn root_summaries() {
    let mut s = RootSummary::new();
    assert_eq!(s.contracts, 0);
    s.record("ESZ5", Some(100), Some(900));
    s.record("ESH5", None, Some(1200));
    s.record("ESM6", Some(50), None);
    assert_eq!(s.contracts, 3);
    assert_eq!(s.first_available_ns, Some(50));
    assert_eq!(s.last_available_ns, Some(1200));
    assert_eq!(s.first_symbol.as_deref(), Some("ESH5"));
    assert_eq!(s.last_symbol.as_deref(), Some("ESZ5"));
    let mut t = RootSummary::new();
    t.record("A", None, None);
    assert_eq!((t.first_available_ns, t.last_available_ns), (None, None));
    assert_eq!(t.first_symbol.as_deref(), Some("A"));
}

#[test]
fn truncate_retries() {
    assert_eq!(truncate_retry_delay(1, true), Some(2));
    assert_eq!(truncate_retry_delay(2, true), Some(4));
    assert_eq!(truncate_retry_delay(3, true), None);
    assert_eq!(truncate_retry_delay(1, false), None);
}

#[test]
fn batched_delete_steps() {
    let start = DeleteProgress { total_deleted: 0, lock_timeouts: 0 };
    let (p, a) = delete_step(start, BatchOutcome::Deleted(25_000), 25_000);
    assert_eq!((p.total_deleted, p.lock_timeouts, a), (25_000, 0, BatchAction::NextBatch));
    let (p, a) = delete_step(p, BatchOutcome::LockTimeout, 25_000);
    assert_eq!((p.total_deleted, p.lock_timeouts, a), (25_000, 1, BatchAction::RetryAfterSecs(2)));
    let (p, a) = delete_step(p, BatchOutcome::LockTimeout, 25_000);
    assert_eq!((p.lock_timeouts, a), (2, BatchAction::RetryAfterSecs(4)));
    let (p, a) = delete_step(p, BatchOutcome::Deleted(10), 25_000);
    assert_eq!((p.total_deleted, p.lock_timeouts, a), (25_010, 0, BatchAction::Done));
    let (_, a) = delete_step(p, BatchOutcome::Deleted(0), 25_000);
    assert_eq!(a, BatchAction::Done);
    let (_, a) = delete_step(p, BatchOutcome::Failed, 25_000);
    assert_eq!(a, BatchAction::Fail);
    let mut q = start;
    for n in 1..=20u64 {
        let (next, a) = delete_step(q, BatchOutcome::LockTimeout, 25_000);
        assert_eq!(a, BatchAction::RetryAfterSecs(2 * n));
        q = next;
    }
    let (last, a) = delete_step(q, BatchOutcome::LockTimeout, 25_000);
    assert_eq!((last.lock_timeouts, a), (20, BatchAction::Fail));
}

#[test]
fn root_summaries_by_root_in_text_order() {
    let mut entries: Vec<RootEntry> = Vec::new();
    assert_eq!(record_contract(&mut entries, "NQ".to_string(), "NQZ5", Some(10), Some(20)), Some(0));
    assert_eq!(record_contract(&mut entries, "ES".to_string(), "ESZ5", None, Some(30)), Some(0));
    assert_eq!(record_contract(&mut entries, "NQ".to_string(), "NQH6", Some(5), None), Some(1));
    assert_eq!(record_contract(&mut entries, "GC".to_string(), "GCG6", None, None), Some(1));
    let roots: Vec<&str> = entries.iter().map(|e| e.root_symbol.as_str()).collect();
    assert_eq!(roots, vec!["ES", "GC", "NQ"]);
    let nq = &entries[2].summary;
    assert_eq!(nq.contracts, 2);
    assert_eq!((nq.first_available_ns, nq.last_available_ns), (Some(5), Some(20)));
    assert_eq!(nq.first_symbol.as_deref(), Some("NQH6"));
    assert_eq!(nq.last_symbol.as_deref(), Some("NQZ5"));
}
