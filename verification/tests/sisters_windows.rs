use abcd::events::event_id_from_hex;
use abcd::naming::{symbol_list_limit, symbol_list_sql};
use abcd::order::{positions_by_key, Timestamp};
use abcd::routing::direction_sign;
use abcd::sisters::{
    cluster_in_reach, cluster_slots, eq_ignore_ascii_case, minutes_between, pivot_window, place_candidate,
    same_series, sister_match, slot_summary, ClusterSlot, EventCluster, SeriesKey,
};
use abcd::symbols::{contract_root, known_root_from_upper, storage_root_from_upper};
use abcd::windows::{
    bars_to_hit, entry_offset_at, entry_window, forward_row_limit, forward_start_index, max_entry_offset,
    max_forward_bars, max_hold_bars, uses_daily_candles,
};

fn at(secs: i64) -> Timestamp {
    Timestamp { secs, nanos: 0 }
}

fn key(symbol: &str, market: &str, table: &str, tf: &str) -> SeriesKey {
    SeriesKey {
        symbol: symbol.to_string(),
        market: market.to_string(),
        source_table: table.to_string(),
        source_timeframe: tf.to_string(),
    }
}

#[test]
fn series_comparison() {
    assert!(eq_ignore_ascii_case("Bullish", "bULLISH"));
    assert!(!eq_ignore_ascii_case("ä", "Ä"));
    let a = key(" esz5", "Bullish", "futures_contract_5m_candles", "5m");
    assert!(same_series(&a, &key("ESZ5 ", "BULLISH", "FUTURES_contract_5m_candles", "5M")));
    assert!(!same_series(&a, &key("ESH6", "Bullish", "futures_contract_5m_candles", "5m")));
    assert!(!same_series(&a, &key("ESZ5", "Bearish", "futures_contract_5m_candles", "5m")));
    assert!(!same_series(&a, &key("ESZ5", "Bullish", "futures_contract_1m_candles", "5m")));
}

#[test]
fn minutes_between_times() {
    assert_eq!(minutes_between(at(0), at(0)), 0);
    assert_eq!(minutes_between(at(120), at(0)), 2);
    assert_eq!(minutes_between(at(0), at(119)), 1);
    assert_eq!(minutes_between(Timestamp { secs: 59, nanos: 999_999_999 }, at(0)), 0);
    assert_eq!(minutes_between(at(-60), at(61)), 2);
    assert_eq!(minutes_between(at(i64::MIN), at(i64::MAX)), 307_445_734_561_825_860);
}

#[test]
fn pivot_windows() {
    assert_eq!(pivot_window(10, 30, 15, 240), 60);
    assert_eq!(pivot_window(3, 2, 15, 240), 15);
    assert_eq!(pivot_window(500, 2, 15, 240), 240);
    assert_eq!(pivot_window(i64::MAX, 0, 15, 240), 240);
    assert_eq!(pivot_window(-5, -9, 15, 240), 15);
}

#[test]
fn sister_decisions() {
    let flags = |v: [bool; 5]| v.to_vec();
    // four pivots with D inside the wide window
    assert!(sister_match(&flags([true, true, true, false, true]), false, 50, 500, 15, 60));
    assert!(!sister_match(&flags([true, true, true, false, true]), false, 61, 500, 15, 60));
    // three of X, A, B, C with a close D price inside the D window
    assert!(sister_match(&flags([true, false, true, true, false]), true, 100, 15, 15, 60));
    assert!(!sister_match(&flags([true, false, true, true, false]), false, 10, 10, 15, 60));
    assert!(!sister_match(&flags([true, false, false, true, true]), true, 10, 10, 15, 60));
    assert!(sister_match(&flags([true, true, true, true, false]), false, 70, 60, 15, 60));
}

#[test]
fn clusters_collect_sisters() {
    let mut clusters: Vec<EventCluster> = Vec::new();
    place_candidate(&mut clusters, None, 0, at(600));
    place_candidate(&mut clusters, None, 1, at(9000));
    place_candidate(&mut clusters, Some(0), 2, at(300));
    place_candidate(&mut clusters, Some(0), 3, at(1200));
    assert_eq!(clusters.len(), 2);
    assert_eq!(clusters[0].members, vec![0, 2, 3]);
    assert_eq!(clusters[0].first_d_confirm_date, at(300));
    assert_eq!(clusters[0].last_d_confirm_date, at(1200));
    assert_eq!(clusters[1].members, vec![1]);
    assert!(cluster_in_reach(at(1200), at(1200 + 240 * 60), 240, 60));
    assert!(!cluster_in_reach(at(1200), at(1200 + 241 * 60), 240, 60));
    assert!(cluster_in_reach(at(0), at(300 * 60), 240, 300));
    let slots = cluster_slots(&clusters);
    assert_eq!(
        slots,
        vec![
            ClusterSlot { setup_index: 0, cluster: 0, event_rank: 1, is_primary: true, sister_count: 3 },
            ClusterSlot { setup_index: 2, cluster: 0, event_rank: 2, is_primary: false, sister_count: 3 },
            ClusterSlot { setup_index: 3, cluster: 0, event_rank: 3, is_primary: false, sister_count: 3 },
            ClusterSlot { setup_index: 1, cluster: 1, event_rank: 1, is_primary: true, sister_count: 1 },
        ]
    );
}

#[test]
fn stable_order_by_id() {
    assert_eq!(positions_by_key(&vec![30, 10, 20, 10]), vec![1, 3, 2, 0]);
    assert_eq!(positions_by_key(&vec![u64::MAX, 0]), vec![1, 0]);
    assert_eq!(positions_by_key(&Vec::new()), Vec::<usize>::new());
}

#[test]
fn forward_windows() {
    let dates = vec![at(10), at(20), at(30), at(40)];
    assert_eq!(forward_start_index(&dates, at(20)), 2);
    assert_eq!(forward_start_index(&dates, at(25)), 2);
    assert_eq!(forward_start_index(&dates, at(5)), 0);
    assert_eq!(forward_start_index(&dates, at(40)), 4);
    assert_eq!(forward_start_index(&dates, at(99)), 4);
    assert_eq!(max_hold_bars(20, 5), 100);
    assert_eq!(max_hold_bars(20, 0), 20);
    assert_eq!(max_hold_bars(-3, 5), 1);
    assert_eq!(max_hold_bars(i64::MAX, 3), i64::MAX as usize);
    assert_eq!(max_entry_offset(100, 10, 50), 24);
    assert_eq!(max_entry_offset(20, 10, 50), 10);
    assert_eq!(max_entry_offset(100, 10, 5), 5);
    assert_eq!(max_entry_offset(5, 10, 5), 0);
    assert_eq!(entry_window(100, 10, 3, 24, 50), Some((12, 62)));
    assert_eq!(entry_window(100, 10, 3, 24, 200), Some((12, 100)));
    assert_eq!(entry_window(100, 10, 0, 24, 50), None);
    assert_eq!(entry_window(100, 10, 25, 24, 50), None);
    assert_eq!(entry_window(100, 10, 3, 24, 0), None);
    assert_eq!(entry_offset_at(15, 10), 6);
    assert_eq!(entry_offset_at(5, 10), 1);
    assert_eq!(max_forward_bars(40, 5), Some(200));
    assert_eq!(max_forward_bars(0, 5), Some(1));
    assert_eq!(max_forward_bars(40, 0), None);
    assert_eq!(forward_row_limit(200), 201);
    assert_eq!(forward_row_limit(i64::MAX), i64::MAX);
    assert!(uses_daily_candles(Some("candles"), None));
    assert!(uses_daily_candles(None, Some("daily")));
    assert!(!uses_daily_candles(Some("futures_contract_1m_candles"), Some("1m")));
    assert!(!uses_daily_candles(None, None));
    assert_eq!(bars_to_hit(12, 10), 3);
    assert_eq!(bars_to_hit(10, 10), 1);
}

#[test]
fn roots_from_upper_case_text() {
    assert_eq!(contract_root("ESZ5"), "ES");
    assert_eq!(contract_root("esz5"), "esz5");
    assert_eq!(known_root_from_upper("MNQH6.FUT"), "MNQ");
    assert_eq!(known_root_from_upper("abcz5"), "abcz5");
    assert_eq!(storage_root_from_upper("CLZ25"), "CL");
    assert_eq!(storage_root_from_upper("6EH"), "6E");
}

#[test]
fn event_ids_from_hex_and_directions() {
    assert_eq!(event_id_from_hex("0123456789abcdef0123"), "evt_0123456789abcdef");
    assert_eq!(direction_sign("Bullish", "pattern"), 1);
    assert_eq!(direction_sign("BEARISH", "pattern"), -1);
    assert_eq!(direction_sign("bearish", "inverse_pattern"), 1);
    assert_eq!(direction_sign("Bullish", "inverse_pattern"), -1);
    assert_eq!(direction_sign("Bullish", "INVERSE_PATTERN"), 1);
}

#[test]
fn symbol_list_queries() {
    assert_eq!(
        symbol_list_sql(false, false, i64::MAX),
        "SELECT DISTINCT symbol FROM futures_contract_1m_candles ORDER BY symbol"
    );
    assert_eq!(
        symbol_list_sql(true, true, 10),
        "SELECT DISTINCT symbol FROM futures_contract_1m_candles WHERE root_symbol = ? AND symbol = ? ORDER BY symbol LIMIT ?"
    );
    assert_eq!(
        symbol_list_sql(false, true, 0),
        "SELECT DISTINCT symbol FROM futures_contract_1m_candles WHERE symbol = ? ORDER BY symbol LIMIT ?"
    );
    assert_eq!(symbol_list_limit(0), 1);
    assert_eq!(symbol_list_limit(7), 7);
}

#[test]
fn event_summary_of_slots() {
    let slot = |setup_index: usize, cluster: usize, event_rank: i64, sister_count: i64| ClusterSlot {
        setup_index,
        cluster,
        event_rank,
        is_primary: event_rank == 1,
        sister_count,
    };
    let slots = vec![slot(0, 0, 1, 3), slot(1, 1, 1, 1), slot(2, 0, 2, 3), slot(3, 0, 3, 3), slot(4, 2, 1, 2), slot(5, 2, 2, 2)];
    assert_eq!(slot_summary(&slots), (3, 5, 3, 3));
    assert_eq!(slot_summary(&Vec::new()), (0, 0, 0, 0));
}
