//! Build coverage: how many events of a template build fall on each root
//! symbol and timeframe, over how many contracts and which confirmation
//! span, listed by exchange and then by event count.
use vstd::prelude::*;
use crate::conditions::clean_optional;
use crate::events::{first_date, last_date};
use crate::options::view_opt;
use crate::order::{
    lemma_text_asymmetric, lemma_text_irreflexive, lemma_text_total, lemma_text_transitive, text_before, text_lt,
    ts_lt, Timestamp,
};
use crate::storage::{int_sum, lemma_sum_insert, lemma_sum_update};
use crate::symbols::{exchange_for_root, exchange_of, normalized_root_symbol, normalized_root_text, SetupSymbols};
use crate::text::{chars_of, chars_eq, str_eq, string_of, trim_chars};

verus! {

broadcast use vstd::seq_lib::group_seq_properties;

/// What the build coverage reads of one event: the root, timeframe and
/// contract of its first candidate, and that candidate's D confirmation.
pub struct CoverageEvent {
    pub root_symbol: String,
    pub source_timeframe: String,
    pub contract_symbol: String,
    pub d_confirm: Timestamp,
}

/// The candidate's timeframe trimmed, else the run's timeframe, else `unknown`.
pub open spec fn coverage_timeframe(setup_timeframe: Option<Seq<char>>, run_timeframe: Option<Seq<char>>) -> Seq<char> {
    match clean_optional(setup_timeframe) {
        Some(t) => t,
        None => match run_timeframe {
            Some(t) => t,
            None => "unknown"@,
        },
    }
}

/// The candidate's contract symbol trimmed, else its symbol trimmed, else `Unknown`.
pub open spec fn coverage_contract(contract_symbol: Option<Seq<char>>, symbol: Seq<char>) -> Seq<char> {
    match clean_optional(contract_symbol) {
        Some(c) => c,
        None => match clean_optional(Some(symbol)) {
            Some(s) => s,
            None => "Unknown"@,
        },
    }
}

fn clean_or(value: &Option<String>) -> (r: Option<String>)
    ensures view_opt(r) == clean_optional(view_opt(*value)),
{
    match value {
        Some(v) => {
            let t = trim_chars(&chars_of(v.as_str()));
            if t.len() == 0 { None } else { Some(string_of(&t)) }
        }
        None => None,
    }
}

/// What the build coverage reads of an event's first candidate.
pub fn coverage_event(
    symbols: &SetupSymbols,
    setup_timeframe: &Option<String>,
    run_timeframe: &Option<String>,
    d_confirm: Timestamp,
) -> (r: CoverageEvent)
    ensures
        r.root_symbol@ == normalized_root_text(*symbols),
        r.source_timeframe@ == coverage_timeframe(view_opt(*setup_timeframe), view_opt(*run_timeframe)),
        r.contract_symbol@ == coverage_contract(view_opt(symbols.contract_symbol), symbols.symbol@),
        r.d_confirm == d_confirm,
{
    let source_timeframe = match clean_or(setup_timeframe) {
        Some(t) => t,
        None => match run_timeframe {
            Some(t) => t.clone(),
            None => String::from_str("unknown"),
        },
    };
    let contract_symbol = match clean_or(&symbols.contract_symbol) {
        Some(c) => c,
        None => match clean_or(&Some(symbols.symbol.clone())) {
            Some(s) => s,
            None => String::from_str("Unknown"),
        },
    };
    CoverageEvent { root_symbol: normalized_root_symbol(symbols), source_timeframe, contract_symbol, d_confirm }
}

/// Whether event `e` falls on root `root` and timeframe `tf`.
pub open spec fn on_bucket(e: CoverageEvent, root: Seq<char>, tf: Seq<char>) -> bool {
    e.root_symbol@ == root && e.source_timeframe@ == tf
}

/// How many of the first `n` events fall on the root and timeframe.
pub open spec fn events_on(ev: Seq<CoverageEvent>, n: int, root: Seq<char>, tf: Seq<char>) -> int
    decreases n,
{
    if n <= 0 { 0 } else { events_on(ev, n - 1, root, tf) + if on_bucket(ev[n - 1], root, tf) { 1int } else { 0 } }
}

/// The contract symbols of the first `n` events on the root and timeframe.
pub open spec fn contracts_on(ev: Seq<CoverageEvent>, n: int, root: Seq<char>, tf: Seq<char>) -> Set<Seq<char>>
    decreases n,
{
    if n <= 0 {
        Set::empty()
    } else if on_bucket(ev[n - 1], root, tf) {
        contracts_on(ev, n - 1, root, tf).insert(ev[n - 1].contract_symbol@)
    } else {
        contracts_on(ev, n - 1, root, tf)
    }
}

pub open spec fn min_time(current: Option<Timestamp>, t: Timestamp) -> Option<Timestamp> {
    match current {
        Some(a) => Some(if ts_lt(t, a) { t } else { a }),
        None => Some(t),
    }
}

pub open spec fn max_time(current: Option<Timestamp>, t: Timestamp) -> Option<Timestamp> {
    match current {
        Some(a) => Some(if ts_lt(a, t) { t } else { a }),
        None => Some(t),
    }
}

/// The earliest D confirmation among the first `n` events on the root and timeframe.
pub open spec fn first_confirm_on(ev: Seq<CoverageEvent>, n: int, root: Seq<char>, tf: Seq<char>) -> Option<Timestamp>
    decreases n,
{
    if n <= 0 {
        None
    } else if on_bucket(ev[n - 1], root, tf) {
        min_time(first_confirm_on(ev, n - 1, root, tf), ev[n - 1].d_confirm)
    } else {
        first_confirm_on(ev, n - 1, root, tf)
    }
}

/// The latest D confirmation among the first `n` events on the root and timeframe.
pub open spec fn last_confirm_on(ev: Seq<CoverageEvent>, n: int, root: Seq<char>, tf: Seq<char>) -> Option<Timestamp>
    decreases n,
{
    if n <= 0 {
        None
    } else if on_bucket(ev[n - 1], root, tf) {
        max_time(last_confirm_on(ev, n - 1, root, tf), ev[n - 1].d_confirm)
    } else {
        last_confirm_on(ev, n - 1, root, tf)
    }
}

/// One row of the build coverage.
pub struct CoverageRow {
    pub root_symbol: String,
    pub exchange_name: String,
    pub source_timeframe: String,
    pub pattern_count: i64,
    pub contract_count: i64,
    pub first_d_confirm: Option<Timestamp>,
    pub last_d_confirm: Option<Timestamp>,
}

/// The order of the coverage rows: by exchange, then by more events first,
/// then by root symbol and timeframe.
pub open spec fn coverage_lt(a: CoverageRow, b: CoverageRow) -> bool {
    ||| text_lt(a.exchange_name@, b.exchange_name@)
    ||| (a.exchange_name@ == b.exchange_name@ && a.pattern_count > b.pattern_count)
    ||| (a.exchange_name@ == b.exchange_name@ && a.pattern_count == b.pattern_count && text_lt(a.root_symbol@, b.root_symbol@))
    ||| (a.exchange_name@ == b.exchange_name@ && a.pattern_count == b.pattern_count && a.root_symbol@ == b.root_symbol@
        && text_lt(a.source_timeframe@, b.source_timeframe@))
}

/// Row `r` is what the first `n` events make of its root and timeframe.
pub open spec fn row_matches(ev: Seq<CoverageEvent>, n: int, r: CoverageRow) -> bool {
    let root = r.root_symbol@;
    let tf = r.source_timeframe@;
    &&& r.exchange_name@ == exchange_of(root)
    &&& r.pattern_count == events_on(ev, n, root, tf)
    &&& r.pattern_count > 0
    &&& r.contract_count == contracts_on(ev, n, root, tf).len()
    &&& r.first_d_confirm == first_confirm_on(ev, n, root, tf)
    &&& r.last_d_confirm == last_confirm_on(ev, n, root, tf)
}

proof fn lemma_coverage_transitive(a: CoverageRow, b: CoverageRow, c: CoverageRow)
    requires coverage_lt(a, b), coverage_lt(b, c),
    ensures coverage_lt(a, c),
{
    if text_lt(a.exchange_name@, b.exchange_name@) && text_lt(b.exchange_name@, c.exchange_name@) {
        lemma_text_transitive(a.exchange_name@, b.exchange_name@, c.exchange_name@);
    }
    if text_lt(a.root_symbol@, b.root_symbol@) && text_lt(b.root_symbol@, c.root_symbol@) {
        lemma_text_transitive(a.root_symbol@, b.root_symbol@, c.root_symbol@);
    }
    if text_lt(a.source_timeframe@, b.source_timeframe@) && text_lt(b.source_timeframe@, c.source_timeframe@) {
        lemma_text_transitive(a.source_timeframe@, b.source_timeframe@, c.source_timeframe@);
    }
}

proof fn lemma_coverage_total(a: CoverageRow, b: CoverageRow)
    requires !(a.root_symbol@ == b.root_symbol@ && a.source_timeframe@ == b.source_timeframe@),
    ensures coverage_lt(a, b) || coverage_lt(b, a),
{
    lemma_text_total(a.exchange_name@, b.exchange_name@);
    lemma_text_total(a.root_symbol@, b.root_symbol@);
    lemma_text_total(a.source_timeframe@, b.source_timeframe@);
}

fn coverage_before(a: &CoverageRow, b: &CoverageRow) -> (r: bool)
    ensures r == coverage_lt(*a, *b),
{
    let ae = chars_of(a.exchange_name.as_str());
    let be = chars_of(b.exchange_name.as_str());
    if text_before(&ae, &be) {
        return true;
    }
    if !chars_eq(&ae, &be) {
        return false;
    }
    if a.pattern_count != b.pattern_count {
        return a.pattern_count > b.pattern_count;
    }
    let ar = chars_of(a.root_symbol.as_str());
    let br = chars_of(b.root_symbol.as_str());
    if text_before(&ar, &br) {
        return true;
    }
    if !chars_eq(&ar, &br) {
        proof { lemma_text_asymmetric(ar@, br@); }
        return false;
    }
    text_before(&chars_of(a.source_timeframe.as_str()), &chars_of(b.source_timeframe.as_str()))
}

/// The texts of a list of strings.
pub open spec fn texts(v: Seq<String>) -> Seq<Seq<char>> {
    v.map_values(|s: String| s@)
}

/// Whether a bucket holds the event's root and timeframe.
spec fn bucketed(buckets: Seq<Bucket>, e: CoverageEvent) -> bool {
    exists|i: int| 0 <= i < buckets.len() && on_bucket(e, (#[trigger] buckets[i]).root_symbol@, buckets[i].source_timeframe@)
}

struct Bucket {
    root_symbol: String,
    source_timeframe: String,
    pattern_count: i64,
    contracts: Vec<String>,
    first_d_confirm: Option<Timestamp>,
    last_d_confirm: Option<Timestamp>,
}

spec fn bucket_counts(b: Seq<Bucket>) -> Seq<int> {
    b.map_values(|x: Bucket| x.pattern_count as int)
}

/// The events of each row.
pub open spec fn row_counts(rows: Seq<CoverageRow>) -> Seq<int> {
    rows.map_values(|x: CoverageRow| x.pattern_count as int)
}

spec fn bucket_matches(ev: Seq<CoverageEvent>, n: int, b: Bucket) -> bool {
    let root = b.root_symbol@;
    let tf = b.source_timeframe@;
    &&& b.pattern_count == events_on(ev, n, root, tf)
    &&& b.pattern_count > 0
    &&& texts(b.contracts@).no_duplicates()
    &&& texts(b.contracts@).to_set() == contracts_on(ev, n, root, tf)
    &&& b.first_d_confirm == first_confirm_on(ev, n, root, tf)
    &&& b.last_d_confirm == last_confirm_on(ev, n, root, tf)
}

proof fn lemma_absent_bucket(ev: Seq<CoverageEvent>, n: int, root: Seq<char>, tf: Seq<char>)
    requires
        0 <= n <= ev.len(),
        forall|j: int| 0 <= j < n ==> !on_bucket(#[trigger] ev[j], root, tf),
    ensures
        events_on(ev, n, root, tf) == 0,
        contracts_on(ev, n, root, tf) == Set::<Seq<char>>::empty(),
        first_confirm_on(ev, n, root, tf) is None,
        last_confirm_on(ev, n, root, tf) is None,
    decreases n,
{
    if n > 0 {
        lemma_absent_bucket(ev, n - 1, root, tf);
    }
}

proof fn lemma_events_bound(ev: Seq<CoverageEvent>, n: int, root: Seq<char>, tf: Seq<char>)
    requires 0 <= n,
    ensures 0 <= events_on(ev, n, root, tf) <= n,
    decreases n,
{
    if n > 0 {
        lemma_events_bound(ev, n - 1, root, tf);
    }
}

fn contains_text(v: &Vec<String>, s: &str) -> (r: bool)
    ensures r == texts(v@).contains(s@),
{
    let mut i: usize = 0;
    while i < v.len()
        invariant
            i <= v@.len(),
            forall|j: int| 0 <= j < i ==> (#[trigger] v@[j])@ != s@,
        decreases v.len() - i,
    {
        if str_eq(v[i].as_str(), s) {
            proof { assert(texts(v@)[i as int] == s@); }
            return true;
        }
        i = i + 1;
    }
    proof {
        if texts(v@).contains(s@) {
            let j = choose|j: int| 0 <= j < texts(v@).len() && texts(v@)[j] == s@;
            assert(v@[j]@ == s@);
        }
    }
    false
}

fn find_bucket(buckets: &Vec<Bucket>, root: &str, tf: &str) -> (r: Option<usize>)
    ensures
        match r {
            Some(i) => i < buckets@.len() && buckets@[i as int].root_symbol@ == root@ && buckets@[i as int].source_timeframe@ == tf@,
            None => forall|i: int| 0 <= i < buckets@.len() ==>
                !((#[trigger] buckets@[i]).root_symbol@ == root@ && buckets@[i].source_timeframe@ == tf@),
        },
{
    let mut i: usize = 0;
    while i < buckets.len()
        invariant
            i <= buckets@.len(),
            forall|j: int| 0 <= j < i ==> !((#[trigger] buckets@[j]).root_symbol@ == root@ && buckets@[j].source_timeframe@ == tf@),
        decreases buckets.len() - i,
    {
        if str_eq(buckets[i].root_symbol.as_str(), root) && str_eq(buckets[i].source_timeframe.as_str(), tf) {
            return Some(i);
        }
        i = i + 1;
    }
    None
}

fn copy_texts(v: &Vec<String>) -> (r: Vec<String>)
    ensures texts(r@) == texts(v@),
{
    let mut r: Vec<String> = Vec::new();
    let mut i: usize = 0;
    while i < v.len()
        invariant
            i <= v@.len(),
            r@.len() == i,
            forall|j: int| 0 <= j < i ==> r@[j]@ == v@[j]@,
        decreases v.len() - i,
    {
        r.push(v[i].clone());
        i = i + 1;
    }
    proof { assert(texts(r@) =~= texts(v@)); }
    r
}

/// Groups the events by root symbol and timeframe.
#[verifier::rlimit(80)]
fn coverage_buckets(events: &Vec<CoverageEvent>) -> (r: Vec<Bucket>)
    requires events@.len() <= i64::MAX,
    ensures
        forall|i: int| 0 <= i < r@.len() ==> bucket_matches(events@, events@.len() as int, #[trigger] r@[i]),
        forall|a: int, b: int| 0 <= a < b < r@.len() ==>
            !(r@[a].root_symbol@ == r@[b].root_symbol@ && r@[a].source_timeframe@ == r@[b].source_timeframe@),
        forall|j: int| 0 <= j < events@.len() ==> bucketed(r@, #[trigger] events@[j]),
        int_sum(bucket_counts(r@)) == events@.len(),
{
    let mut buckets: Vec<Bucket> = Vec::new();
    proof { assert(bucket_counts(buckets@) =~= Seq::<int>::empty()); }
    let mut n: usize = 0;
    while n < events.len()
        invariant
            n <= events@.len() <= i64::MAX,
            forall|i: int| 0 <= i < buckets@.len() ==> bucket_matches(events@, n as int, #[trigger] buckets@[i]),
            forall|a: int, b: int| 0 <= a < b < buckets@.len() ==>
                !(buckets@[a].root_symbol@ == buckets@[b].root_symbol@ && buckets@[a].source_timeframe@ == buckets@[b].source_timeframe@),
            forall|j: int| 0 <= j < n ==> bucketed(buckets@, #[trigger] events@[j]),
            int_sum(bucket_counts(buckets@)) == n,
        decreases events.len() - n,
    {
        let e = &events[n];
        let ghost before = buckets@;
        let ghost root = e.root_symbol@;
        let ghost tf = e.source_timeframe@;
        let ghost n1: int = n as int + 1;
        match find_bucket(&buckets, e.root_symbol.as_str(), e.source_timeframe.as_str()) {
            Some(i) => {
                let b = &buckets[i];
                proof {
                    assert(bucket_matches(events@, n as int, before[i as int]));
                    lemma_events_bound(events@, n as int, root, tf);
                }
                let mut contracts = copy_texts(&b.contracts);
                if !contains_text(&contracts, e.contract_symbol.as_str()) {
                    let ghost old_c = contracts@;
                    contracts.push(e.contract_symbol.clone());
                    proof {
                        assert(texts(contracts@) =~= texts(old_c).push(e.contract_symbol@));
                        assert(texts(contracts@).to_set() =~= texts(old_c).to_set().insert(e.contract_symbol@));
                    }
                } else {
                    proof {
                        assert(texts(b.contracts@).to_set().insert(e.contract_symbol@) =~= texts(b.contracts@).to_set());
                    }
                }
                let updated = Bucket {
                    root_symbol: b.root_symbol.clone(),
                    source_timeframe: b.source_timeframe.clone(),
                    pattern_count: b.pattern_count + 1,
                    contracts,
                    first_d_confirm: first_date(b.first_d_confirm, Some(e.d_confirm)),
                    last_d_confirm: last_date(b.last_d_confirm, Some(e.d_confirm)),
                };
                buckets.set(i, updated);
                proof {
                    assert(bucket_counts(buckets@) =~= bucket_counts(before).update(i as int, buckets@[i as int].pattern_count as int));
                    lemma_sum_update(bucket_counts(before), i as int, buckets@[i as int].pattern_count as int);
                    assert forall|k: int| 0 <= k < buckets@.len() implies bucket_matches(events@, n1, #[trigger] buckets@[k]) by {
                        if k != i as int {
                            assert(buckets@[k] == before[k]);
                            assert(!on_bucket(events@[n as int], before[k].root_symbol@, before[k].source_timeframe@));
                        }
                    }
                    assert forall|j: int| 0 <= j < n1 implies bucketed(buckets@, #[trigger] events@[j]) by {
                        if j < n {
                            let k = choose|k: int| 0 <= k < before.len() && on_bucket(events@[j], (#[trigger] before[k]).root_symbol@, before[k].source_timeframe@);
                            assert(buckets@[k].root_symbol@ == before[k].root_symbol@);
                            assert(buckets@[k].source_timeframe@ == before[k].source_timeframe@);
                        } else {
                            assert(on_bucket(events@[j], buckets@[i as int].root_symbol@, buckets@[i as int].source_timeframe@));
                        }
                    }
                }
            }
            None => {
                proof {
                    assert forall|j: int| 0 <= j < n implies !on_bucket(#[trigger] events@[j], root, tf) by {
                        if on_bucket(events@[j], root, tf) {
                            let k = choose|k: int| 0 <= k < before.len() && on_bucket(events@[j], (#[trigger] before[k]).root_symbol@, before[k].source_timeframe@);
                            assert(before[k].root_symbol@ == root && before[k].source_timeframe@ == tf);
                        }
                    }
                    lemma_absent_bucket(events@, n as int, root, tf);
                }
                let mut contracts: Vec<String> = Vec::new();
                contracts.push(e.contract_symbol.clone());
                proof {
                    assert(texts(contracts@) =~= seq![e.contract_symbol@]);
                    assert(texts(contracts@).to_set() =~= Set::<Seq<char>>::empty().insert(e.contract_symbol@));
                }
                buckets.push(Bucket {
                    root_symbol: e.root_symbol.clone(),
                    source_timeframe: e.source_timeframe.clone(),
                    pattern_count: 1,
                    contracts,
                    first_d_confirm: Some(e.d_confirm),
                    last_d_confirm: Some(e.d_confirm),
                });
                proof {
                    assert(bucket_counts(buckets@) =~= bucket_counts(before).insert(before.len() as int, 1));
                    lemma_sum_insert(bucket_counts(before), before.len() as int, 1);
                    assert forall|k: int| 0 <= k < buckets@.len() implies bucket_matches(events@, n1, #[trigger] buckets@[k]) by {
                        if k < before.len() {
                            assert(buckets@[k] == before[k]);
                            assert(!on_bucket(events@[n as int], before[k].root_symbol@, before[k].source_timeframe@));
                        }
                    }
                    assert forall|j: int| 0 <= j < n1 implies bucketed(buckets@, #[trigger] events@[j]) by {
                        if j < n {
                            let k = choose|k: int| 0 <= k < before.len() && on_bucket(events@[j], (#[trigger] before[k]).root_symbol@, before[k].source_timeframe@);
                            assert(buckets@[k] == before[k]);
                        } else {
                            assert(on_bucket(events@[j], buckets@[before.len() as int].root_symbol@, buckets@[before.len() as int].source_timeframe@));
                        }
                    }
                }
            }
        }
        n = n + 1;
    }
    buckets
}

proof fn lemma_contracts_bound(ev: Seq<CoverageEvent>, n: int, root: Seq<char>, tf: Seq<char>)
    requires 0 <= n,
    ensures
        contracts_on(ev, n, root, tf).finite(),
        contracts_on(ev, n, root, tf).len() <= events_on(ev, n, root, tf),
    decreases n,
{
    if n > 0 {
        lemma_contracts_bound(ev, n - 1, root, tf);
    }
}

/// Whether a row holds the root and timeframe.
pub open spec fn has_row(rows: Seq<CoverageRow>, root: Seq<char>, tf: Seq<char>) -> bool {
    exists|i: int| 0 <= i < rows.len() && (#[trigger] rows[i]).root_symbol@ == root && rows[i].source_timeframe@ == tf
}

/// Whether a row holds the event's root and timeframe.
pub open spec fn row_for(rows: Seq<CoverageRow>, e: CoverageEvent) -> bool {
    has_row(rows, e.root_symbol@, e.source_timeframe@)
}

/// The rows are in strict coverage order.
pub open spec fn coverage_sorted(rows: Seq<CoverageRow>) -> bool {
    forall|a: int, b: int| 0 <= a < b < rows.len() ==> coverage_lt(rows[a], rows[b])
}

spec fn from_bucket(buckets: Seq<Bucket>, upto: int, r: CoverageRow) -> bool {
    exists|q: int| 0 <= q < upto && (#[trigger] buckets[q]).root_symbol@ == r.root_symbol@ && buckets[q].source_timeframe@ == r.source_timeframe@
}

/// The build coverage of the events: one row per root symbol and
/// timeframe with its events, distinct contracts and confirmation span,
/// listed by exchange, then by more events first, then by root symbol and
/// timeframe.
#[verifier::rlimit(80)]
pub fn build_coverage_rows(events: &Vec<CoverageEvent>) -> (r: Vec<CoverageRow>)
    requires events@.len() <= i64::MAX,
    ensures
        coverage_sorted(r@),
        forall|i: int| 0 <= i < r@.len() ==> row_matches(events@, events@.len() as int, #[trigger] r@[i]),
        forall|j: int| 0 <= j < events@.len() ==> row_for(r@, #[trigger] events@[j]),
        int_sum(row_counts(r@)) == events@.len(),
{
    let buckets = coverage_buckets(events);
    let ghost total = events@.len() as int;
    let mut out: Vec<CoverageRow> = Vec::new();
    let mut q: usize = 0;
    proof {
        assert(row_counts(out@) =~= Seq::<int>::empty());
        assert(bucket_counts(buckets@.take(0)) =~= Seq::<int>::empty());
    }
    while q < buckets.len()
        invariant
            q <= buckets@.len(),
            total == events@.len(),
            total <= i64::MAX,
            forall|i: int| 0 <= i < buckets@.len() ==> bucket_matches(events@, total, #[trigger] buckets@[i]),
            forall|a: int, b: int| 0 <= a < b < buckets@.len() ==>
                !(buckets@[a].root_symbol@ == buckets@[b].root_symbol@ && buckets@[a].source_timeframe@ == buckets@[b].source_timeframe@),
            coverage_sorted(out@),
            forall|i: int| 0 <= i < out@.len() ==> row_matches(events@, total, #[trigger] out@[i]),
            forall|i: int| 0 <= i < out@.len() ==> from_bucket(buckets@, q as int, #[trigger] out@[i]),
            forall|k: int| 0 <= k < q ==> has_row(out@, (#[trigger] buckets@[k]).root_symbol@, buckets@[k].source_timeframe@),
            int_sum(row_counts(out@)) == int_sum(bucket_counts(buckets@.take(q as int))),
        decreases buckets.len() - q,
    {
        let b = &buckets[q];
        let ghost before = out@;
        let ghost root = b.root_symbol@;
        let ghost tf = b.source_timeframe@;
        proof {
            assert(bucket_matches(events@, total, buckets@[q as int]));
            texts(b.contracts@).unique_seq_to_set();
            lemma_contracts_bound(events@, total, root, tf);
            lemma_events_bound(events@, total, root, tf);
        }
        let row = CoverageRow {
            root_symbol: b.root_symbol.clone(),
            exchange_name: exchange_for_root(b.root_symbol.as_str()),
            source_timeframe: b.source_timeframe.clone(),
            pattern_count: b.pattern_count,
            contract_count: b.contracts.len() as i64,
            first_d_confirm: b.first_d_confirm,
            last_d_confirm: b.last_d_confirm,
        };
        proof {
            assert forall|i: int| 0 <= i < before.len() implies !(before[i].root_symbol@ == root && before[i].source_timeframe@ == tf) by {
                if before[i].root_symbol@ == root && before[i].source_timeframe@ == tf {
                    let k = choose|k: int| 0 <= k < q && (#[trigger] buckets@[k]).root_symbol@ == before[i].root_symbol@
                        && buckets@[k].source_timeframe@ == before[i].source_timeframe@;
                    assert(from_bucket(buckets@, q as int, before[i]));
                }
            }
        }
        let mut p: usize = 0;
        while p < out.len() && coverage_before(&out[p], &row)
            invariant
                p <= out@.len(),
                out@ == before,
                forall|x: int| 0 <= x < p ==> coverage_lt(#[trigger] out@[x], row),
            decreases out.len() - p,
        {
            p = p + 1;
        }
        proof {
            if p < before.len() {
                lemma_coverage_total(before[p as int], row);
            }
        }
        out.insert(p, row);
        proof {
            assert(out@ == before.insert(p as int, out@[p as int]));
            assert(row_counts(out@) =~= row_counts(before).insert(p as int, buckets@[q as int].pattern_count as int));
            lemma_sum_insert(row_counts(before), p as int, buckets@[q as int].pattern_count as int);
            assert(bucket_counts(buckets@.take(q as int + 1)).drop_last() =~= bucket_counts(buckets@.take(q as int)));
            assert forall|a: int, b2: int| 0 <= a < b2 < out@.len() implies coverage_lt(out@[a], out@[b2]) by {
                if b2 < p {
                } else if b2 == p {
                } else if a < p {
                    assert(out@[b2] == before[b2 - 1]);
                    if b2 - 1 > p {
                        assert(coverage_lt(before[p as int], before[b2 - 1]));
                        lemma_coverage_transitive(out@[p as int], before[p as int], before[b2 - 1]);
                    }
                    lemma_coverage_transitive(before[a], out@[p as int], before[b2 - 1]);
                } else if a == p {
                    assert(out@[b2] == before[b2 - 1]);
                    if b2 - 1 > p {
                        assert(coverage_lt(before[p as int], before[b2 - 1]));
                        lemma_coverage_transitive(out@[p as int], before[p as int], before[b2 - 1]);
                    }
                } else {
                    assert(out@[a] == before[a - 1]);
                    assert(out@[b2] == before[b2 - 1]);
                }
            }
            assert forall|i: int| 0 <= i < out@.len() implies row_matches(events@, total, #[trigger] out@[i]) by {
                if i < p { assert(out@[i] == before[i]); } else if i > p { assert(out@[i] == before[i - 1]); }
            }
            assert forall|i: int| 0 <= i < out@.len() implies from_bucket(buckets@, q as int + 1, #[trigger] out@[i]) by {
                if i < p {
                    assert(out@[i] == before[i]);
                    assert(from_bucket(buckets@, q as int, before[i]));
                } else if i > p {
                    assert(out@[i] == before[i - 1]);
                    assert(from_bucket(buckets@, q as int, before[i - 1]));
                } else {
                    assert(buckets@[q as int].root_symbol@ == out@[i].root_symbol@);
                }
            }
            assert forall|k: int| 0 <= k < q + 1 implies has_row(out@, (#[trigger] buckets@[k]).root_symbol@, buckets@[k].source_timeframe@) by {
                if k < q {
                    assert(has_row(before, buckets@[k].root_symbol@, buckets@[k].source_timeframe@));
                    let i = choose|i: int| 0 <= i < before.len() && (#[trigger] before[i]).root_symbol@ == buckets@[k].root_symbol@
                        && before[i].source_timeframe@ == buckets@[k].source_timeframe@;
                    if i < p { assert(out@[i] == before[i]); } else { assert(out@[i + 1] == before[i]); }
                } else {
                    assert(out@[p as int].root_symbol@ == buckets@[k].root_symbol@);
                }
            }
        }
        q = q + 1;
    }
    proof {
        assert(buckets@.take(buckets@.len() as int) =~= buckets@);
        assert forall|j: int| 0 <= j < events@.len() implies row_for(out@, #[trigger] events@[j]) by {
            assert(bucketed(buckets@, events@[j]));
            let k = choose|k: int| 0 <= k < buckets@.len() && on_bucket(events@[j], (#[trigger] buckets@[k]).root_symbol@, buckets@[k].source_timeframe@);
            assert(has_row(out@, buckets@[k].root_symbol@, buckets@[k].source_timeframe@));
        }
    }
    out
}

} // verus!
