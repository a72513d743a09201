//! Sister patterns: the same harmonic pattern found twice in one series, and
//! the event clusters that collect such setups into one event.
use vstd::prelude::*;
use crate::text::{ascii_lower, chars_eq, chars_of, lower_chars};
use crate::symbols::{clean_symbol, clean_symbol_text};
use crate::order::{ts_lt, ts_max, ts_min, Timestamp};

verus! {

/// `str::eq_ignore_ascii_case`.
pub fn eq_ignore_ascii_case(a: &str, b: &str) -> (r: bool)
    ensures r == (ascii_lower(a@) == ascii_lower(b@)),
{
    let x = lower_chars(&chars_of(a));
    let y = lower_chars(&chars_of(b));
    chars_eq(&x, &y)
}

/// The fields that place a setup in a series: only setups of one series
/// can be sisters.
pub struct SeriesKey {
    pub symbol: String,
    pub market: String,
    pub source_table: String,
    pub source_timeframe: String,
}

/// Same cleaned symbol, and the same market, source table and timeframe up
/// to ASCII case.
pub open spec fn same_series_spec(l: SeriesKey, r: SeriesKey) -> bool {
    &&& clean_symbol_text(l.symbol@) == clean_symbol_text(r.symbol@)
    &&& ascii_lower(l.market@) == ascii_lower(r.market@)
    &&& ascii_lower(l.source_table@) == ascii_lower(r.source_table@)
    &&& ascii_lower(l.source_timeframe@) == ascii_lower(r.source_timeframe@)
}

/// Whether two setups belong to one series.
pub fn same_series(left: &SeriesKey, right: &SeriesKey) -> (r: bool)
    ensures r == same_series_spec(*left, *right),
{
    let a = clean_symbol(left.symbol.as_str());
    let b = clean_symbol(right.symbol.as_str());
    if !chars_eq(&chars_of(a.as_str()), &chars_of(b.as_str())) {
        return false;
    }
    eq_ignore_ascii_case(left.market.as_str(), right.market.as_str())
        && eq_ignore_ascii_case(left.source_table.as_str(), right.source_table.as_str())
        && eq_ignore_ascii_case(left.source_timeframe.as_str(), right.source_timeframe.as_str())
}

/// A time as nanoseconds since the epoch.
pub open spec fn total_ns(t: Timestamp) -> int {
    t.secs * 1_000_000_000 + t.nanos
}

/// Whole minutes between two times, however they are ordered.
pub open spec fn minutes_apart(a: Timestamp, b: Timestamp) -> int {
    let d = total_ns(a) - total_ns(b);
    (if d < 0 { -d } else { d }) / 60_000_000_000
}

/// The whole minutes between two times (`signed_duration_since`, then
/// `num_minutes`, then `abs`).
pub fn minutes_between(a: Timestamp, b: Timestamp) -> (r: i64)
    ensures r == minutes_apart(a, b),
{
    let x: i128 = (a.secs as i128) * 1_000_000_000 + (a.nanos as i128);
    let y: i128 = (b.secs as i128) * 1_000_000_000 + (b.nanos as i128);
    let d: i128 = x - y;
    let m: i128 = if d < 0 { -d } else { d };
    let q: i128 = m / 60_000_000_000;
    assert(q <= 0x7fff_ffff_ffff_ffff) by (nonlinear_arith)
        requires
            q == m / 60_000_000_000,
            0 <= m <= 2 * (0x8000_0000_0000_0000 * 1_000_000_000 + 0xffff_ffff),
    ;
    q as i64
}

/// `x.saturating_mul(2)` for an `i64`.
pub open spec fn doubled_saturating(x: int) -> int {
    if 2 * x > i64::MAX { i64::MAX as int } else if 2 * x < i64::MIN { i64::MIN as int } else { 2 * x }
}

/// The time window within which the X, A, B and C pivots of two setups must
/// fall: twice the longer pattern, kept between the D window and the anchor
/// window.
pub open spec fn anchor_window_of(left_len: int, right_len: int, d_window: int, anchor_window: int) -> int {
    let longest = if left_len >= right_len { left_len } else { right_len };
    let twice = doubled_saturating(longest);
    let clamped = if twice < d_window { d_window } else if twice > anchor_window { anchor_window } else { twice };
    if clamped >= d_window { clamped } else { d_window }
}

/// The pivot time window for two setups of the given pattern lengths.
pub fn pivot_window(left_len: i64, right_len: i64, d_window: i64, anchor_window: i64) -> (r: i64)
    requires d_window <= anchor_window,
    ensures r == anchor_window_of(left_len as int, right_len as int, d_window as int, anchor_window as int),
{
    let longest = if left_len >= right_len { left_len } else { right_len };
    let twice: i64 = if longest > i64::MAX / 2 {
        i64::MAX
    } else if longest < i64::MIN / 2 {
        i64::MIN
    } else {
        longest * 2
    };
    let clamped = if twice < d_window { d_window } else if twice > anchor_window { anchor_window } else { twice };
    if clamped >= d_window { clamped } else { d_window }
}

/// How many of the flags are set.
pub open spec fn count_set(s: Seq<bool>) -> nat
    decreases s.len(),
{
    if s.len() == 0 { 0 } else { count_set(s.drop_last()) + if s.last() { 1nat } else { 0nat } }
}

/// Whether two setups of one series are sisters, given which of their X, A,
/// B, C and D pivots match (in that order), whether their D prices are
/// close, and how far apart their D confirmations and D pivots are: four
/// matching pivots with D inside the wide window, or three of X, A, B, C
/// with a close D price inside the D window.
pub open spec fn sister_spec(
    pivots: Seq<bool>,
    d_price_close: bool,
    d_confirm_diff: int,
    d_date_diff: int,
    d_window: int,
    wide_window: int,
) -> bool {
    let xabc = count_set(pivots.take(4));
    let all = count_set(pivots);
    let near = d_confirm_diff <= d_window || d_date_diff <= d_window;
    let wide = d_confirm_diff <= wide_window || d_date_diff <= wide_window;
    (all >= 4 && wide) || (xabc >= 4 && wide) || (xabc >= 3 && d_price_close && near)
}

/// How many of the flags are set, counted by filtering.
pub open spec fn set_flags(s: Seq<bool>) -> nat {
    s.filter(|b: bool| b).len()
}

proof fn lemma_count_set_is_filter(s: Seq<bool>)
    ensures count_set(s) == set_flags(s),
    decreases s.len(),
{
    reveal(Seq::filter);
    if s.len() > 0 {
        lemma_count_set_is_filter(s.drop_last());
    }
}

/// D inside the wide window: its confirmations or its pivots are no more
/// than `wide_window` minutes apart.
pub open spec fn d_in_wide(d_confirm_diff: int, d_date_diff: int, wide_window: int) -> bool {
    d_confirm_diff <= wide_window || d_date_diff <= wide_window
}

/// D inside the D window with a close D price.
pub open spec fn d_close_and_near(d_price_close: bool, d_confirm_diff: int, d_date_diff: int, d_window: int) -> bool {
    d_price_close && (d_confirm_diff <= d_window || d_date_diff <= d_window)
}

/// Two setups whose D points lie outside the wide window are sisters only
/// through three matching X, A, B, C pivots with a close D price inside the
/// D window; without a close D price, never.
pub proof fn lemma_far_d_points_are_not_sisters(
    pivots: Seq<bool>,
    d_price_close: bool,
    d_confirm_diff: int,
    d_date_diff: int,
    d_window: int,
    wide_window: int,
)
    requires
        pivots.len() == 5,
        sister_spec(pivots, d_price_close, d_confirm_diff, d_date_diff, d_window, wide_window),
    ensures
        d_in_wide(d_confirm_diff, d_date_diff, wide_window)
            || (set_flags(pivots.take(4)) >= 3 && d_close_and_near(d_price_close, d_confirm_diff, d_date_diff, d_window)),
        !d_price_close ==> d_in_wide(d_confirm_diff, d_date_diff, wide_window),
{
    lemma_count_set_is_filter(pivots.take(4));
}

/// Four or more matching pivots of the five make sisters whenever D lies
/// inside the wide window.
pub proof fn lemma_four_matches_in_wide_window_are_sisters(
    pivots: Seq<bool>,
    d_price_close: bool,
    d_confirm_diff: int,
    d_date_diff: int,
    d_window: int,
    wide_window: int,
)
    requires
        pivots.len() == 5,
        set_flags(pivots) >= 4,
        d_in_wide(d_confirm_diff, d_date_diff, wide_window),
    ensures
        sister_spec(pivots, d_price_close, d_confirm_diff, d_date_diff, d_window, wide_window),
{
    lemma_count_set_is_filter(pivots);
}

/// Three matching X, A, B, C pivots make sisters whenever the D price is
/// close and D lies inside the D window.
pub proof fn lemma_three_matches_with_close_d_are_sisters(
    pivots: Seq<bool>,
    d_price_close: bool,
    d_confirm_diff: int,
    d_date_diff: int,
    d_window: int,
    wide_window: int,
)
    requires
        pivots.len() == 5,
        set_flags(pivots.take(4)) >= 3,
        d_close_and_near(d_price_close, d_confirm_diff, d_date_diff, d_window),
    ensures
        sister_spec(pivots, d_price_close, d_confirm_diff, d_date_diff, d_window, wide_window),
{
    lemma_count_set_is_filter(pivots.take(4));
}

/// Fewer than four matching pivots make sisters only through three matching
/// X, A, B, C pivots with a close D price inside the D window.
pub proof fn lemma_few_matches_need_close_d(
    pivots: Seq<bool>,
    d_price_close: bool,
    d_confirm_diff: int,
    d_date_diff: int,
    d_window: int,
    wide_window: int,
)
    requires
        pivots.len() == 5,
        set_flags(pivots) < 4,
        sister_spec(pivots, d_price_close, d_confirm_diff, d_date_diff, d_window, wide_window),
    ensures
        set_flags(pivots.take(4)) >= 3,
        d_close_and_near(d_price_close, d_confirm_diff, d_date_diff, d_window),
{
    lemma_count_set_is_filter(pivots);
    lemma_count_set_is_filter(pivots.take(4));
    lemma_prefix_count_le(pivots, 4);
}

proof fn lemma_prefix_count_le(s: Seq<bool>, n: int)
    requires 0 <= n <= s.len(),
    ensures count_set(s.take(n)) <= count_set(s),
    decreases s.len(),
{
    if n < s.len() {
        assert(s.drop_last().take(n) =~= s.take(n));
        lemma_prefix_count_le(s.drop_last(), n);
    } else {
        assert(s.take(n) =~= s);
    }
}

fn count_flags(v: &Vec<bool>, n: usize) -> (r: usize)
    requires n <= v.len(),
    ensures r == count_set(v@.take(n as int)), r <= n,
{
    let mut c: usize = 0;
    let mut i: usize = 0;
    while i < n
        invariant
            i <= n <= v.len(),
            c == count_set(v@.take(i as int)),
            c <= i,
        decreases n - i,
    {
        proof { assert(v@.take(i + 1).drop_last() =~= v@.take(i as int)); }
        if v[i] {
            c = c + 1;
        }
        i = i + 1;
    }
    c
}

/// Decides whether two setups are sisters from their pivot matches.
pub fn sister_match(
    pivots: &Vec<bool>,
    d_price_close: bool,
    d_confirm_diff: i64,
    d_date_diff: i64,
    d_window: i64,
    wide_window: i64,
) -> (r: bool)
    requires pivots@.len() == 5,
    ensures r == sister_spec(pivots@, d_price_close, d_confirm_diff as int, d_date_diff as int, d_window as int, wide_window as int),
{
    let xabc = count_flags(pivots, 4);
    let all = count_flags(pivots, 5);
    proof { assert(pivots@.take(5) =~= pivots@); }
    let near = d_confirm_diff <= d_window || d_date_diff <= d_window;
    let wide = d_confirm_diff <= wide_window || d_date_diff <= wide_window;
    (all >= 4 && wide) || (xabc >= 4 && wide) || (xabc >= 3 && d_price_close && near)
}

/// The whole minutes between two times count the full minutes in the
/// distance between them, whichever comes first: that many minutes fit in
/// the distance and one more does not.
pub proof fn lemma_minutes_apart_counts_whole_minutes(a: Timestamp, b: Timestamp)
    ensures
        minutes_apart(a, b) == minutes_apart(b, a),
        minutes_apart(a, b) >= 0,
        minutes_apart(a, b) * 60_000_000_000 <= (if total_ns(a) >= total_ns(b) { total_ns(a) - total_ns(b) } else { total_ns(b) - total_ns(a) }),
        (if total_ns(a) >= total_ns(b) { total_ns(a) - total_ns(b) } else { total_ns(b) - total_ns(a) }) < (minutes_apart(a, b) + 1) * 60_000_000_000,
        minutes_apart(a, a) == 0,
{
    let d: int = if total_ns(a) >= total_ns(b) { total_ns(a) - total_ns(b) } else { total_ns(b) - total_ns(a) };
    let m = d / 60_000_000_000;
    assert(m * 60_000_000_000 <= d < (m + 1) * 60_000_000_000 && m >= 0) by (nonlinear_arith)
        requires m == d / 60_000_000_000, d >= 0;
}

/// The pivot window is twice the longer pattern, but never narrower than
/// the D window nor wider than the anchor window.
pub proof fn lemma_pivot_window_clamps_twice_the_longer_pattern(left_len: i64, right_len: i64, d_window: i64, anchor_window: i64)
    requires d_window <= anchor_window,
    ensures
        d_window <= anchor_window_of(left_len as int, right_len as int, d_window as int, anchor_window as int) <= anchor_window,
        ({
            let twice = 2 * (if left_len >= right_len { left_len as int } else { right_len as int });
            &&& d_window <= twice <= anchor_window ==> anchor_window_of(left_len as int, right_len as int, d_window as int, anchor_window as int) == twice
            &&& twice < d_window ==> anchor_window_of(left_len as int, right_len as int, d_window as int, anchor_window as int) == d_window
            &&& twice > anchor_window ==> anchor_window_of(left_len as int, right_len as int, d_window as int, anchor_window as int) == anchor_window
        }),
        anchor_window_of(left_len as int, right_len as int, d_window as int, anchor_window as int)
            == anchor_window_of(right_len as int, left_len as int, d_window as int, anchor_window as int),
{
}

/// A setup is in reach of a cluster exactly when their D confirmations are
/// no more whole minutes apart than the anchor window or the wide window.
pub proof fn lemma_reach_is_the_wider_window(last: Timestamp, candidate: Timestamp, anchor_window: i64, wide_window: i64)
    ensures
        in_reach(last, candidate, anchor_window as int, wide_window as int)
            <==> (minutes_apart(last, candidate) <= anchor_window || minutes_apart(last, candidate) <= wide_window),
{
}

/// Being of one series is an equivalence: every setup is of its own series,
/// in either order, and through a third.
pub proof fn lemma_same_series_is_an_equivalence(a: SeriesKey, b: SeriesKey, c: SeriesKey)
    ensures
        same_series_spec(a, a),
        same_series_spec(a, b) ==> same_series_spec(b, a),
        same_series_spec(a, b) && same_series_spec(b, c) ==> same_series_spec(a, c),
{
}

/// An event being collected: its setups in the order they joined, and the
/// first and last of their D confirmations.
pub struct EventCluster {
    pub members: Vec<usize>,
    pub first_d_confirm_date: Timestamp,
    pub last_d_confirm_date: Timestamp,
}

/// Within the wider of the anchor and wide windows.
pub open spec fn in_reach(last: Timestamp, candidate: Timestamp, anchor_window: int, wide_window: int) -> bool {
    minutes_apart(last, candidate) <= (if anchor_window >= wide_window { anchor_window } else { wide_window })
}

/// Whether a setup confirmed at `candidate` is close enough in time to a
/// cluster last confirmed at `last` to be compared with it.
pub fn cluster_in_reach(last: Timestamp, candidate: Timestamp, anchor_window: i64, wide_window: i64) -> (r: bool)
    ensures
        r == (minutes_apart(last, candidate) <= (if anchor_window >= wide_window { anchor_window } else { wide_window })),
        r == in_reach(last, candidate, anchor_window as int, wide_window as int),
{
    let reach = if anchor_window >= wide_window { anchor_window } else { wide_window };
    minutes_between(last, candidate) <= reach
}

/// The cluster `c` after setup `index`, confirmed at `at`, joined it.
pub open spec fn joined(c: EventCluster, index: usize, at: Timestamp) -> (Seq<usize>, Timestamp, Timestamp) {
    (
        c.members@.push(index),
        if ts_lt(at, c.first_d_confirm_date) { at } else { c.first_d_confirm_date },
        if ts_lt(c.last_d_confirm_date, at) { at } else { c.last_d_confirm_date },
    )
}

/// The clusters `new` are `old` after setup `index`, confirmed at `at`,
/// joined the chosen cluster, or opened a new one where none was chosen.
pub open spec fn placed(
    old: Seq<EventCluster>,
    new: Seq<EventCluster>,
    chosen: Option<usize>,
    index: usize,
    at: Timestamp,
) -> bool {
    match chosen {
        Some(c) => {
            &&& c < old.len()
            &&& new.len() == old.len()
            &&& forall|j: int| 0 <= j < old.len() && j != c ==> new[j] == old[j]
            &&& (new[c as int].members@, new[c as int].first_d_confirm_date, new[c as int].last_d_confirm_date)
                == joined(old[c as int], index, at)
        },
        None => {
            &&& new.len() == old.len() + 1
            &&& forall|j: int| 0 <= j < old.len() ==> new[j] == old[j]
            &&& new.last().members@ == seq![index]
            &&& new.last().first_d_confirm_date == at
            &&& new.last().last_d_confirm_date == at
        },
    }
}

/// Places setup `index`, confirmed at `at`, in the chosen cluster, or opens
/// a new cluster for it where none was chosen.
pub fn place_candidate(clusters: &mut Vec<EventCluster>, chosen: Option<usize>, index: usize, at: Timestamp)
    requires chosen matches Some(c) ==> c < old(clusters)@.len(),
    ensures placed(old(clusters)@, final(clusters)@, chosen, index, at),
{
    match chosen {
        Some(c) => {
            let mut cluster = clusters.remove(c);
            cluster.members.push(index);
            cluster.first_d_confirm_date = ts_min(cluster.first_d_confirm_date, at);
            cluster.last_d_confirm_date = ts_max(cluster.last_d_confirm_date, at);
            clusters.insert(c, cluster);
        }
        None => {
            let mut members: Vec<usize> = Vec::new();
            members.push(index);
            clusters.push(EventCluster { members, first_d_confirm_date: at, last_d_confirm_date: at });
        }
    }
}

/// One setup's place in its event: its rank from one, whether it is the
/// primary (first) setup, and how many sisters the event has.
#[derive(Clone, Copy, Debug, PartialEq, Eq)]
pub struct ClusterSlot {
    pub setup_index: usize,
    pub cluster: usize,
    pub event_rank: i64,
    pub is_primary: bool,
    pub sister_count: i64,
}

/// The slots of one cluster, in member order.
pub open spec fn slots_of_cluster(members: Seq<usize>, cluster: usize) -> Seq<ClusterSlot> {
    Seq::new(members.len(), |k: int| ClusterSlot {
        setup_index: members[k],
        cluster,
        event_rank: (k + 1) as i64,
        is_primary: k == 0,
        sister_count: members.len() as i64,
    })
}

/// The slots of the first `n` clusters, cluster after cluster.
pub open spec fn slots_upto(clusters: Seq<EventCluster>, n: int) -> Seq<ClusterSlot>
    decreases n,
{
    if n <= 0 {
        Seq::empty()
    } else {
        slots_upto(clusters, n - 1) + slots_of_cluster(clusters[n - 1].members@, (n - 1) as usize)
    }
}

/// Every setup's place in its event, cluster by cluster in the order the
/// clusters were opened.
pub fn cluster_slots(clusters: &Vec<EventCluster>) -> (r: Vec<ClusterSlot>)
    requires forall|c: int| 0 <= c < clusters@.len() ==> (#[trigger] clusters@[c]).members@.len() < i64::MAX,
    ensures r@ == slots_upto(clusters@, clusters@.len() as int),
{
    let mut out: Vec<ClusterSlot> = Vec::new();
    let mut c: usize = 0;
    while c < clusters.len()
        invariant
            c <= clusters@.len(),
            forall|k: int| 0 <= k < clusters@.len() ==> (#[trigger] clusters@[k]).members@.len() < i64::MAX,
            out@ == slots_upto(clusters@, c as int),
        decreases clusters@.len() - c,
    {
        let members = &clusters[c].members;
        let n = members.len();
        let ghost start = out@;
        let mut k: usize = 0;
        proof { assert(clusters@[c as int].members@.len() < i64::MAX); }
        while k < n
            invariant
                k <= n == members@.len() < i64::MAX,
                members@ == clusters@[c as int].members@,
                out@ == start + slots_of_cluster(members@, c).take(k as int),
            decreases n - k,
        {
            out.push(ClusterSlot {
                setup_index: members[k],
                cluster: c,
                event_rank: (k as i64) + 1,
                is_primary: k == 0,
                sister_count: n as i64,
            });
            k = k + 1;
            assert(out@ =~= start + slots_of_cluster(members@, c).take(k as int));
        }
        proof { assert(slots_of_cluster(members@, c).take(n as int) =~= slots_of_cluster(members@, c)); }
        c = c + 1;
    }
    out
}

/// The members of the first `n` clusters, cluster after cluster.
pub open spec fn members_upto(clusters: Seq<EventCluster>, n: int) -> Seq<usize>
    decreases n,
{
    if n <= 0 { Seq::empty() } else { members_upto(clusters, n - 1) + clusters[n - 1].members@ }
}

proof fn lemma_members_same_prefix(a: Seq<EventCluster>, b: Seq<EventCluster>, n: int)
    requires
        0 <= n <= a.len(),
        n <= b.len(),
        forall|j: int| 0 <= j < n ==> a[j] == b[j],
    ensures members_upto(a, n) == members_upto(b, n),
    decreases n,
{
    if n > 0 {
        lemma_members_same_prefix(a, b, n - 1);
    }
}

proof fn lemma_members_joined(old: Seq<EventCluster>, new: Seq<EventCluster>, c: int, index: usize, k: int)
    requires
        0 <= c < k <= old.len() == new.len(),
        forall|j: int| 0 <= j < old.len() && j != c ==> new[j] == old[j],
        new[c].members@ == old[c].members@.push(index),
    ensures members_upto(new, k).to_multiset() == members_upto(old, k).to_multiset().insert(index),
    decreases k,
{
    broadcast use vstd::seq_lib::group_to_multiset_ensures, vstd::seq_lib::lemma_multiset_commutative;
    if k == c + 1 {
        lemma_members_same_prefix(old, new, c);
        assert(members_upto(new, k) =~= (members_upto(old, c) + old[c].members@).push(index));
    } else {
        lemma_members_joined(old, new, c, index, k - 1);
        assert(new[k - 1] == old[k - 1]);
        assert(members_upto(new, k).to_multiset()
            == members_upto(new, k - 1).to_multiset().add(new[k - 1].members@.to_multiset()));
        assert(members_upto(old, k).to_multiset()
            == members_upto(old, k - 1).to_multiset().add(old[k - 1].members@.to_multiset()));
        assert(members_upto(new, k).to_multiset() =~= members_upto(old, k).to_multiset().insert(index));
    }
}

/// Placing a setup adds it, and nothing else, to the members of the
/// clusters: placed one by one, every setup ends up in exactly one cluster.
pub proof fn lemma_place_adds_member(
    old: Seq<EventCluster>,
    new: Seq<EventCluster>,
    chosen: Option<usize>,
    index: usize,
    at: Timestamp,
)
    requires placed(old, new, chosen, index, at),
    ensures
        members_upto(new, new.len() as int).to_multiset()
            == members_upto(old, old.len() as int).to_multiset().insert(index),
{
    broadcast use vstd::seq_lib::group_to_multiset_ensures, vstd::seq_lib::lemma_multiset_commutative;
    match chosen {
        Some(c) => {
            lemma_members_joined(old, new, c as int, index, old.len() as int);
        },
        None => {
            lemma_members_same_prefix(old, new, old.len() as int);
            assert(new[old.len() as int] == new.last());
            assert(members_upto(new, new.len() as int) =~= members_upto(old, old.len() as int).push(index));
        },
    }
}

/// Every member of every cluster gets one slot, in cluster order: the setups
/// of the slots are the members of the clusters.
pub proof fn lemma_slots_cover_members(clusters: Seq<EventCluster>, n: int)
    requires 0 <= n <= clusters.len(),
    ensures slots_upto(clusters, n).map_values(|s: ClusterSlot| s.setup_index) == members_upto(clusters, n),
    decreases n,
{
    if n > 0 {
        lemma_slots_cover_members(clusters, n - 1);
        let a = slots_upto(clusters, n - 1);
        let b = slots_of_cluster(clusters[n - 1].members@, (n - 1) as usize);
        assert((a + b).map_values(|s: ClusterSlot| s.setup_index)
            =~= a.map_values(|s: ClusterSlot| s.setup_index) + b.map_values(|s: ClusterSlot| s.setup_index));
        assert(b.map_values(|s: ClusterSlot| s.setup_index) =~= clusters[n - 1].members@);
    }
}

/// How many of the first `n` slots are primaries, are in events of more than
/// one setup, and rank below the first.
pub open spec fn slot_counts(slots: Seq<ClusterSlot>, n: int) -> (int, int, int)
    decreases n,
{
    if n <= 0 {
        (0, 0, 0)
    } else {
        let (p, t, d) = slot_counts(slots, n - 1);
        let s = slots[n - 1];
        (
            p + if s.is_primary { 1int } else { 0 },
            t + if s.sister_count > 1 { 1int } else { 0 },
            d + if s.event_rank > 1 { 1int } else { 0 },
        )
    }
}

/// The largest event size among the first `n` slots, zero for none.
pub open spec fn largest_event(slots: Seq<ClusterSlot>, n: int) -> int
    decreases n,
{
    if n <= 0 {
        0
    } else {
        let m = largest_event(slots, n - 1);
        if n == 1 || slots[n - 1].sister_count > m { slots[n - 1].sister_count as int } else { m }
    }
}

proof fn lemma_slot_counts_bound(slots: Seq<ClusterSlot>, n: int)
    requires 0 <= n,
    ensures
        0 <= slot_counts(slots, n).0 <= n,
        0 <= slot_counts(slots, n).1 <= n,
        0 <= slot_counts(slots, n).2 <= n,
    decreases n,
{
    if n > 0 {
        lemma_slot_counts_bound(slots, n - 1);
    }
}

/// The event summary of the slots: events (primary slots), setups in events
/// of more than one setup, setups ranked below their event's first, and the
/// largest event.
pub fn slot_summary(slots: &Vec<ClusterSlot>) -> (r: (usize, usize, usize, i64))
    ensures
        (r.0 as int, r.1 as int, r.2 as int) == slot_counts(slots@, slots@.len() as int),
        r.3 == largest_event(slots@, slots@.len() as int),
{
    let mut events: usize = 0;
    let mut twins: usize = 0;
    let mut duplicates: usize = 0;
    let mut largest: i64 = 0;
    let mut i: usize = 0;
    while i < slots.len()
        invariant
            i <= slots@.len(),
            (events as int, twins as int, duplicates as int) == slot_counts(slots@, i as int),
            largest == largest_event(slots@, i as int),
        decreases slots.len() - i,
    {
        proof { lemma_slot_counts_bound(slots@, i as int); }
        let s = &slots[i];
        if s.is_primary {
            events = events + 1;
        }
        if s.sister_count > 1 {
            twins = twins + 1;
        }
        if s.event_rank > 1 {
            duplicates = duplicates + 1;
        }
        if i == 0 || s.sister_count > largest {
            largest = s.sister_count;
        }
        i = i + 1;
    }
    (events, twins, duplicates, largest)
}

} // verus!
