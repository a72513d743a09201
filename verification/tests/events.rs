use abcd::events::{
    build_pattern_events, event_id_for, first_date, last_date, live_event_candidate_count,
    pattern_event_key, EventCandidate, PatternEvent, SetupIdentity,
};
use abcd::order::Timestamp;

fn at(secs: i64) -> Timestamp {
    Timestamp { secs, nanos: 0 }
}

fn candidate(setup_id: &str, event_id: Option<&str>, rank: Option<i64>, secs: i64) -> EventCandidate {
    EventCandidate {
        setup_id: setup_id.to_string(),
        event_id: event_id.map(|s| s.to_string()),
        event_rank: rank,
        d_confirm_date: at(secs),
    }
}

fn sample() -> Vec<EventCandidate> {
    vec![
        candidate("s1", Some("E1"), Some(2), 100),
        candidate("s2", Some(" E1 "), Some(1), 100),
        candidate("s3", None, None, 50),
        candidate("s4", Some(""), None, 200),
        candidate("s5", Some("E1"), None, 90),
    ]
}

#[test]
fn event_keys() {
    assert_eq!(pattern_event_key(&candidate("a", Some("  evt_1 "), None, 0)), "evt_1");
    assert_eq!(pattern_event_key(&candidate("a", Some("   "), None, 0)), "setup:a");
    assert_eq!(pattern_event_key(&candidate("b", None, None, 0)), "setup:b");
}

#[test]
fn setups_group_into_events_in_decision_order() {
    let ps = sample();
    let events = build_pattern_events(&ps, None);
    let keys: Vec<&str> = events.iter().map(|e| e.event_key.as_str()).collect();
    assert_eq!(keys, vec!["setup:s3", "E1", "setup:s4"]);
    let e1 = &events[1];
    assert_eq!(e1.decision_date, at(90));
    assert_eq!(e1.candidates, vec![4, 1, 0]);
    assert_eq!(e1.event_id, Some("E1".to_string()));
    assert_eq!(events[0].event_id, None);
    assert_eq!(events[2].event_id, None);
    assert_eq!(events[2].candidates, vec![3]);
}

#[test]
fn every_setup_is_in_exactly_one_event() {
    let ps = sample();
    let events = build_pattern_events(&ps, None);
    for i in 0..ps.len() {
        let holders = events.iter().filter(|e| e.candidates.contains(&i)).count();
        assert_eq!(holders, 1);
    }
}

#[test]
fn event_limit_keeps_the_first_decisions() {
    let ps = sample();
    let events = build_pattern_events(&ps, Some(2));
    let keys: Vec<&str> = events.iter().map(|e| e.event_key.as_str()).collect();
    assert_eq!(keys, vec!["setup:s3", "E1"]);
    assert!(build_pattern_events(&ps, Some(0)).is_empty());
    assert!(build_pattern_events(&Vec::new(), None).is_empty());
}

#[test]
fn limited_events_are_the_first_unlimited_events() {
    let ps = sample();
    let all = build_pattern_events(&ps, None);
    for n in 0..all.len() + 2 {
        let limited = build_pattern_events(&ps, Some(n));
        assert_eq!(limited.len(), n.min(all.len()));
        for (l, a) in limited.iter().zip(all.iter()) {
            assert_eq!(l.event_key, a.event_key);
            assert_eq!(l.event_id, a.event_id);
            assert_eq!(l.decision_date, a.decision_date);
            assert_eq!(l.candidates, a.candidates);
        }
    }
}

#[test]
fn ties_break_by_rank_then_setup_id_then_input_order() {
    let ps = vec![
        candidate("b", Some("K"), None, 10),
        candidate("a", Some("K"), None, 10),
        candidate("c", Some("K"), Some(5), 10),
        candidate("a", Some("K"), None, 10),
    ];
    let events = build_pattern_events(&ps, None);
    assert_eq!(events.len(), 1);
    assert_eq!(events[0].candidates, vec![2, 1, 3, 0]);
    let same_time = vec![candidate("x", Some("B"), None, 7), candidate("y", Some("A"), None, 7)];
    let keys: Vec<String> = build_pattern_events(&same_time, None).into_iter().map(|e| e.event_key).collect();
    assert_eq!(keys, vec!["A".to_string(), "B".to_string()]);
}

#[test]
fn live_candidates_are_counted_at_the_decision() {
    let ps = sample();
    let events = build_pattern_events(&ps, None);
    assert_eq!(live_event_candidate_count(&ps, &events[1]), 1);
    let late = PatternEvent {
        event_key: "E1".to_string(),
        event_id: None,
        decision_date: at(150),
        candidates: vec![0, 1, 4],
    };
    assert_eq!(live_event_candidate_count(&ps, &late), 3);
    let early = PatternEvent { event_key: "E1".to_string(), event_id: None, decision_date: at(10), candidates: vec![0] };
    assert_eq!(live_event_candidate_count(&ps, &early), 1);
}

#[test]
fn optional_dates() {
    let a = Some(Timestamp { secs: 5, nanos: 1 });
    let b = Some(Timestamp { secs: 5, nanos: 0 });
    assert_eq!(first_date(a, b), b);
    assert_eq!(last_date(a, b), a);
    assert_eq!(first_date(None, a), a);
    assert_eq!(last_date(b, None), b);
    assert_eq!(first_date(None, None), None);
}

#[test]
fn event_ids_hash_the_primary_setup() {
    let p = SetupIdentity {
        symbol: "ESZ5".to_string(),
        root_symbol: "ES".to_string(),
        source_table: "futures_contract_5m_candles".to_string(),
        source_timeframe: "5m".to_string(),
        market: "futures".to_string(),
        setup_id: "S1".to_string(),
    };
    let input = "ESZ5|ES|futures_contract_5m_candles|5m|futures|S1";
    let hex = blake3::hash(input.as_bytes()).to_hex().to_string();
    let id = event_id_for(&p);
    assert_eq!(id, format!("evt_{}", &hex[..16]));
    assert_eq!(id.len(), 20);
    let mut q = p;
    q.setup_id = "S2".to_string();
    assert_ne!(event_id_for(&q), id);
}
