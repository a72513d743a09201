//! Twin/event decisions: pattern setups that share an event key are one
//! decision, taken at the earliest confirmation among them.
use vstd::prelude::*;
use crate::text::{chars_eq, chars_of, push_all, push_lit, string_of, trim};
use crate::conditions::{clean_optional, clean_optional_text};
use crate::options::view_opt;
use crate::order::{
    key_lt, lemma_key_total, lemma_text_asymmetric, lemma_text_irreflexive, sort_positions, strictly_sorted,
    text_lt, ts_le, ts_lt, ts_before, SortKey, Timestamp,
};

verus! {

broadcast use vstd::seq_lib::group_to_multiset_ensures;

/// What event grouping reads of a pattern setup.
pub struct EventCandidate {
    pub setup_id: String,
    pub event_id: Option<String>,
    pub event_rank: Option<i64>,
    pub d_confirm_date: Timestamp,
}

/// One decision: its key, its event id, the earliest confirmation among its
/// candidates, and the candidates as positions in the input.
pub struct PatternEvent {
    pub event_key: String,
    pub event_id: Option<String>,
    pub decision_date: Timestamp,
    pub candidates: Vec<usize>,
}

/// The key of a setup's event: its trimmed event id, or `setup:<setup id>`.
pub open spec fn event_key_text(c: EventCandidate) -> Seq<char> {
    match clean_optional(view_opt(c.event_id)) {
        Some(t) => t,
        None => "setup:"@ + c.setup_id@,
    }
}

/// The event key of a pattern setup.
pub fn pattern_event_key(setup: &EventCandidate) -> (r: String)
    ensures r@ == event_key_text(*setup),
{
    let cleaned = match &setup.event_id {
        Some(e) => clean_optional_text(Some(e.as_str())),
        None => None,
    };
    match cleaned {
        Some(t) => t,
        None => {
            let mut v = chars_of("setup:");
            push_lit(&mut v, setup.setup_id.as_str());
            string_of(&v)
        }
    }
}

/// Whether a setup has an event id that is not blank.
pub open spec fn given_id(c: EventCandidate) -> bool {
    view_opt(c.event_id) is Some && trim(view_opt(c.event_id)->0).len() > 0
}

/// A setup's event key is its event id, trimmed, where that id is given and
/// not blank, and `setup:` followed by its setup id otherwise: setups that
/// share a non-blank event id share an event, and setups without one are
/// events of their own, apart whenever their setup ids differ.
pub proof fn lemma_event_key_is_event_id_or_setup(a: EventCandidate, b: EventCandidate)
    ensures
        view_opt(a.event_id) matches Some(id) ==> (trim(id).len() > 0 ==> event_key_text(a) == trim(id)),
        !given_id(a) ==> event_key_text(a) == "setup:"@ + a.setup_id@,
        given_id(a) && given_id(b) && trim(view_opt(a.event_id)->0) == trim(view_opt(b.event_id)->0)
            ==> event_key_text(a) == event_key_text(b),
        !given_id(a) && !given_id(b) && a.setup_id@ != b.setup_id@ ==> event_key_text(a) != event_key_text(b),
{
    if !given_id(a) && !given_id(b) && event_key_text(a) == event_key_text(b) {
        let p = "setup:"@;
        assert(a.setup_id@ =~= (p + a.setup_id@).subrange(p.len() as int, (p + a.setup_id@).len() as int));
        assert(b.setup_id@ =~= (p + b.setup_id@).subrange(p.len() as int, (p + b.setup_id@).len() as int));
    }
}

/// A setup's rank in its event, absent ranks last.
pub open spec fn rank_or_last(c: EventCandidate) -> int {
    match c.event_rank {
        Some(r) => r as int,
        None => i64::MAX as int,
    }
}

/// Candidate order within an event: confirmation, rank, setup id, then input position.
pub open spec fn candidate_lt(ps: Seq<EventCandidate>, a: usize, b: usize) -> bool {
    let x = ps[a as int];
    let y = ps[b as int];
    ||| ts_lt(x.d_confirm_date, y.d_confirm_date)
    ||| (x.d_confirm_date == y.d_confirm_date && rank_or_last(x) < rank_or_last(y))
    ||| (x.d_confirm_date == y.d_confirm_date && rank_or_last(x) == rank_or_last(y) && text_lt(x.setup_id@, y.setup_id@))
    ||| (x.d_confirm_date == y.d_confirm_date && rank_or_last(x) == rank_or_last(y) && x.setup_id@ == y.setup_id@ && a < b)
}

/// Event order: decision time, then event key.
pub open spec fn decision_lt(d1: Timestamp, k1: Seq<char>, d2: Timestamp, k2: Seq<char>) -> bool {
    ts_lt(d1, d2) || (d1 == d2 && text_lt(k1, k2))
}

/// Whether an event holds position `i` of the input.
pub open spec fn has_member(e: PatternEvent, i: usize) -> bool {
    e.candidates@.contains(i)
}

/// Whether `e` is, for the setups `ps`, the full event of its key: every setup
/// of that key and no other, in candidate order, decided at the earliest
/// confirmation, carrying the event id of its first setup in input order.
pub open spec fn is_full_event(ps: Seq<EventCandidate>, e: PatternEvent) -> bool {
    &&& e.candidates@.len() > 0
    &&& forall|k: int| 0 <= k < e.candidates@.len() ==> (#[trigger] e.candidates@[k]) < ps.len()
    &&& forall|k: int| 0 <= k < e.candidates@.len() ==> event_key_text(ps[#[trigger] e.candidates@[k] as int]) == e.event_key@
    &&& forall|i: usize| i < ps.len() && event_key_text(ps[i as int]) == e.event_key@ ==> #[trigger] has_member(e, i)
    &&& forall|a: int, b: int| 0 <= a < b < e.candidates@.len() ==> candidate_lt(ps, #[trigger] e.candidates@[a], #[trigger] e.candidates@[b])
    &&& e.decision_date == ps[e.candidates@[0] as int].d_confirm_date
    &&& forall|k: int| 0 <= k < e.candidates@.len() ==> ts_le(e.decision_date, ps[#[trigger] e.candidates@[k] as int].d_confirm_date)
    &&& forall|j: usize| has_member(e, j) && (forall|c: usize| has_member(e, c) ==> j <= c)
            ==> view_opt(e.event_id) == clean_optional(view_opt(#[trigger] ps[j as int].event_id))
}

/// A group of setups sharing an event key, among the first `upto` setups.
pub open spec fn group_ok(ps: Seq<EventCandidate>, key: Seq<char>, dec: Timestamp, mem: Seq<usize>, upto: int) -> bool {
    &&& mem.len() > 0
    &&& forall|a: int, b: int| 0 <= a < b < mem.len() ==> #[trigger] mem[a] < #[trigger] mem[b]
    &&& forall|k: int| 0 <= k < mem.len() ==> (#[trigger] mem[k] as int) < upto
    &&& forall|k: int| 0 <= k < mem.len() ==> event_key_text(ps[#[trigger] mem[k] as int]) == key
    &&& forall|m: usize| (m as int) < upto && event_key_text(ps[m as int]) == key ==> #[trigger] mem.contains(m)
    &&& forall|k: int| 0 <= k < mem.len() ==> ts_le(dec, ps[#[trigger] mem[k] as int].d_confirm_date)
    &&& exists|k: int| 0 <= k < mem.len() && ps[#[trigger] mem[k] as int].d_confirm_date == dec
}

/// The groups of the first `upto` setups: distinct keys, every setup in one.
pub open spec fn groups_ok(
    ps: Seq<EventCandidate>,
    keys: Seq<Vec<char>>,
    decs: Seq<Timestamp>,
    mems: Seq<Vec<usize>>,
    upto: int,
) -> bool {
    &&& 0 <= upto <= ps.len()
    &&& keys.len() == decs.len() == mems.len()
    &&& forall|g: int| 0 <= g < keys.len() ==> group_ok(ps, #[trigger] keys[g]@, decs[g], mems[g]@, upto)
    &&& forall|g: int, h: int| 0 <= g < keys.len() && 0 <= h < keys.len() && g != h ==> #[trigger] keys[g]@ != #[trigger] keys[h]@
    &&& forall|m: int| 0 <= m < upto ==> exists|g: int| 0 <= g < keys.len() && #[trigger] keys[g]@ == event_key_text(#[trigger] ps[m])
}

/// Groups the setups by event key, in order of first appearance.
fn group_setups(ps: &Vec<EventCandidate>) -> (r: (Vec<Vec<char>>, Vec<Timestamp>, Vec<Vec<usize>>))
    ensures groups_ok(ps@, r.0@, r.1@, r.2@, ps@.len() as int),
{
    let mut keys: Vec<Vec<char>> = Vec::new();
    let mut decs: Vec<Timestamp> = Vec::new();
    let mut mems: Vec<Vec<usize>> = Vec::new();
    let mut i: usize = 0;
    while i < ps.len()
        invariant
            i <= ps.len(),
            groups_ok(ps@, keys@, decs@, mems@, i as int),
        decreases ps.len() - i,
    {
        let key_string = pattern_event_key(&ps[i]);
        let key = chars_of(key_string.as_str());
        let date = ps[i].d_confirm_date;
        let mut j: usize = 0;
        while j < keys.len() && !chars_eq(&keys[j], &key)
            invariant
                j <= keys.len(),
                forall|h: int| 0 <= h < j ==> keys@[h]@ != key@,
            decreases keys.len() - j,
        {
            j = j + 1;
        }
        let found = j < keys.len();
        let ghost ki = event_key_text(ps@[i as int]);
        let ghost old_keys = keys@;
        let ghost old_decs = decs@;
        let ghost old_mems = mems@;
        if found {
            let ghost om = mems@[j as int]@;
            mems[j].push(i);
            let nd = if ts_before(&date, &decs[j]) { date } else { decs[j] };
            decs.set(j, nd);
            proof {
                let nm = mems@[j as int]@;
                assert(nm == om.push(i));
                assert(keys@ == old_keys);
                assert forall|g: int| 0 <= g < keys@.len() implies group_ok(ps@, #[trigger] keys@[g]@, decs@[g], mems@[g]@, i + 1) by {
                    if g == j {
                        let w = choose|k: int| 0 <= k < om.len() && ps@[om[k] as int].d_confirm_date == old_decs[g];
                        assert forall|m: usize| (m as int) < i + 1 && event_key_text(ps@[m as int]) == keys@[g]@ implies #[trigger] nm.contains(m) by {
                            if m == i {
                                assert(nm[om.len() as int] == i);
                            } else {
                                assert(om.contains(m));
                                let k = choose|k: int| 0 <= k < om.len() && om[k] == m;
                                assert(nm[k] == m);
                            }
                        }
                        if ts_lt(date, old_decs[g]) {
                            assert(nm[om.len() as int] == i);
                        } else {
                            assert(nm[w] == om[w]);
                        }
                        assert forall|k: int| 0 <= k < nm.len() implies ts_le(decs@[g], ps@[#[trigger] nm[k] as int].d_confirm_date) by {
                            if k < om.len() { assert(nm[k] == om[k]); }
                        }
                        assert forall|a: int, b: int| 0 <= a < b < nm.len() implies #[trigger] nm[a] < #[trigger] nm[b] by {
                            if b < om.len() { assert(nm[a] == om[a]); assert(nm[b] == om[b]); }
                            else { assert(nm[a] == om[a]); }
                        }
                    } else {
                        assert(mems@[g] == old_mems[g]);
                        assert(decs@[g] == old_decs[g]);
                        let mg = mems@[g]@;
                        assert forall|m: usize| (m as int) < i + 1 && event_key_text(ps@[m as int]) == keys@[g]@ implies #[trigger] mg.contains(m) by {
                            if m == i {
                                assert(keys@[g]@ != keys@[j as int]@);
                            }
                        }
                    }
                }
                assert forall|m: int| 0 <= m < i + 1 implies exists|g: int| 0 <= g < keys@.len() && #[trigger] keys@[g]@ == event_key_text(#[trigger] ps@[m]) by {
                    if m == i {
                        assert(keys@[j as int]@ == event_key_text(ps@[m]));
                    }
                }
            }
        } else {
            let mut mem: Vec<usize> = Vec::new();
            mem.push(i);
            keys.push(key);
            decs.push(date);
            mems.push(mem);
            proof {
                let g0 = old_keys.len() as int;
                assert forall|g: int| 0 <= g < keys@.len() implies group_ok(ps@, #[trigger] keys@[g]@, decs@[g], mems@[g]@, i + 1) by {
                    if g == g0 {
                        let nm = mems@[g]@;
                        assert(nm[0] == i);
                        assert forall|m: usize| (m as int) < i + 1 && event_key_text(ps@[m as int]) == keys@[g]@ implies #[trigger] nm.contains(m) by {
                            if m < i {
                                let h = choose|h: int| 0 <= h < old_keys.len() && #[trigger] old_keys[h]@ == event_key_text(ps@[m as int]);
                                assert(old_keys[h]@ == key@);
                            } else {
                                assert(nm[0] == m);
                            }
                        }
                    } else {
                        assert(keys@[g] == old_keys[g]);
                        assert(mems@[g] == old_mems[g]);
                        assert(decs@[g] == old_decs[g]);
                        let mg = mems@[g]@;
                        assert forall|m: usize| (m as int) < i + 1 && event_key_text(ps@[m as int]) == keys@[g]@ implies #[trigger] mg.contains(m) by {
                            if m == i {
                                assert(old_keys[g]@ != key@);
                            }
                        }
                    }
                }
                assert forall|g: int, h: int| 0 <= g < keys@.len() && 0 <= h < keys@.len() && g != h implies #[trigger] keys@[g]@ != #[trigger] keys@[h]@ by {
                    if g == g0 { assert(old_keys[h]@ != key@); }
                    else if h == g0 { assert(old_keys[g]@ != key@); }
                    else { assert(keys@[g] == old_keys[g]); assert(keys@[h] == old_keys[h]); }
                }
                assert forall|m: int| 0 <= m < i + 1 implies exists|g: int| 0 <= g < keys@.len() && #[trigger] keys@[g]@ == event_key_text(#[trigger] ps@[m]) by {
                    if m == i {
                        assert(keys@[g0]@ == event_key_text(ps@[m]));
                    } else {
                        let h = choose|h: int| 0 <= h < old_keys.len() && #[trigger] old_keys[h]@ == event_key_text(ps@[m]);
                        assert(keys@[h] == old_keys[h]);
                    }
                }
            }
        }
        i = i + 1;
    }
    (keys, decs, mems)
}

fn copy_positions(v: &Vec<usize>) -> (r: Vec<usize>)
    ensures r@ == v@,
{
    let mut r: Vec<usize> = Vec::new();
    let mut i: usize = 0;
    while i < v.len()
        invariant
            i <= v.len(),
            r@ == v@.take(i as int),
        decreases v.len() - i,
    {
        r.push(v[i]);
        i = i + 1;
        assert(r@ =~= v@.take(i as int));
    }
    assert(v@.take(v@.len() as int) =~= v@);
    r
}

fn copy_chars(v: &Vec<char>) -> (r: Vec<char>)
    ensures r@ == v@,
{
    let mut r: Vec<char> = Vec::new();
    push_all(&mut r, v);
    assert(r@ =~= v@);
    r
}

fn positions_upto(n: usize) -> (r: Vec<usize>)
    ensures
        r@.len() == n,
        forall|k: int| 0 <= k < n ==> #[trigger] r@[k] == k,
        r@.no_duplicates(),
{
    let mut r: Vec<usize> = Vec::new();
    let mut i: usize = 0;
    while i < n
        invariant
            i <= n,
            r@.len() == i,
            forall|k: int| 0 <= k < i ==> #[trigger] r@[k] == k,
        decreases n - i,
    {
        r.push(i);
        i = i + 1;
    }
    r
}

/// Whether sort keys stand for the candidate order of the setups.
pub open spec fn candidate_keys(ps: Seq<EventCandidate>, keys: Seq<SortKey>) -> bool {
    &&& keys.len() == ps.len()
    &&& forall|k: int| 0 <= k < ps.len() ==> (#[trigger] keys[k]).at == ps[k].d_confirm_date
        && keys[k].rank == rank_or_last(ps[k]) && keys[k].text@ == ps[k].setup_id@
}

fn build_candidate_keys(ps: &Vec<EventCandidate>) -> (r: Vec<SortKey>)
    ensures candidate_keys(ps@, r@),
{
    let mut r: Vec<SortKey> = Vec::new();
    let mut i: usize = 0;
    while i < ps.len()
        invariant
            i <= ps.len(),
            r@.len() == i,
            forall|k: int| 0 <= k < i ==> (#[trigger] r@[k]).at == ps@[k].d_confirm_date
                && r@[k].rank == rank_or_last(ps@[k]) && r@[k].text@ == ps@[k].setup_id@,
        decreases ps.len() - i,
    {
        let rank: i64 = match ps[i].event_rank { Some(x) => x, None => i64::MAX };
        r.push(SortKey { at: ps[i].d_confirm_date, rank, text: chars_of(ps[i].setup_id.as_str()) });
        i = i + 1;
    }
    r
}

proof fn lemma_candidate_keys_order(ps: Seq<EventCandidate>, keys: Seq<SortKey>, a: usize, b: usize)
    requires candidate_keys(ps, keys), a < ps.len(), b < ps.len(),
    ensures key_lt(keys, a, b) == candidate_lt(ps, a, b),
{
    assert(keys[a as int].at == ps[a as int].d_confirm_date);
    assert(keys[b as int].at == ps[b as int].d_confirm_date);
}

proof fn lemma_increasing_no_dup(s: Seq<usize>)
    requires forall|a: int, b: int| 0 <= a < b < s.len() ==> #[trigger] s[a] < #[trigger] s[b],
    ensures s.no_duplicates(),
{
    assert forall|i: int, j: int| 0 <= i < s.len() && 0 <= j < s.len() && i != j implies s[i] != s[j] by {
        if i < j { assert(s[i] < s[j]); } else { assert(s[j] < s[i]); }
    }
}

/// A group arranged in candidate order is a full event.
proof fn lemma_group_event(
    ps: Seq<EventCandidate>,
    ckeys: Seq<SortKey>,
    key: Seq<char>,
    dec: Timestamp,
    mem: Seq<usize>,
    sorted: Seq<usize>,
    e: PatternEvent,
)
    requires
        group_ok(ps, key, dec, mem, ps.len() as int),
        candidate_keys(ps, ckeys),
        sorted.to_multiset() == mem.to_multiset(),
        sorted.len() == mem.len(),
        strictly_sorted(ckeys, sorted),
        e.event_key@ == key,
        e.decision_date == dec,
        e.candidates@ == sorted,
        view_opt(e.event_id) == clean_optional(view_opt(ps[mem[0] as int].event_id)),
    ensures
        is_full_event(ps, e),
{
    assert forall|x: usize| sorted.contains(x) <==> mem.contains(x) by {
        assert(sorted.contains(x) <==> sorted.to_multiset().count(x) > 0);
        assert(mem.contains(x) <==> mem.to_multiset().count(x) > 0);
    }
    assert forall|k: int| 0 <= k < sorted.len() implies (#[trigger] sorted[k]) < ps.len() && event_key_text(ps[sorted[k] as int]) == key
        && ts_le(dec, ps[sorted[k] as int].d_confirm_date) by {
        assert(sorted.contains(sorted[k]));
        let j = choose|j: int| 0 <= j < mem.len() && mem[j] == sorted[k];
        assert(mem[j] == sorted[k]);
    }
    assert forall|i: usize| i < ps.len() && event_key_text(ps[i as int]) == e.event_key@ implies #[trigger] has_member(e, i) by {
        assert(mem.contains(i));
    }
    assert forall|a: int, b: int| 0 <= a < b < sorted.len() implies candidate_lt(ps, #[trigger] sorted[a], #[trigger] sorted[b]) by {
        lemma_candidate_keys_order(ps, ckeys, sorted[a], sorted[b]);
    }
    let w = choose|k: int| 0 <= k < mem.len() && ps[#[trigger] mem[k] as int].d_confirm_date == dec;
    assert(mem.contains(mem[w]));
    let ws = choose|k: int| 0 <= k < sorted.len() && sorted[k] == mem[w];
    if ws > 0 {
        assert(candidate_lt(ps, sorted[0], sorted[ws]));
    }
    let s0 = ps[sorted[0] as int].d_confirm_date;
    assert(ts_le(dec, s0));
    assert(ts_le(s0, dec));
    assert(s0 == dec);
    assert forall|j: usize| has_member(e, j) && (forall|c: usize| has_member(e, c) ==> j <= c)
        implies view_opt(e.event_id) == clean_optional(view_opt(#[trigger] ps[j as int].event_id)) by {
        assert(mem.contains(mem[0]));
        assert(has_member(e, mem[0]));
        assert(j <= mem[0]);
        assert(mem.contains(j));
        let t = choose|t: int| 0 <= t < mem.len() && mem[t] == j;
        if t > 0 {
            assert(mem[0] < mem[t]);
        }
    }
}

/// Whether sort keys stand for the decision order of the groups.
pub open spec fn decision_keys(keys: Seq<Vec<char>>, decs: Seq<Timestamp>, ekeys: Seq<SortKey>) -> bool {
    &&& ekeys.len() == keys.len()
    &&& forall|h: int| 0 <= h < keys.len() ==> (#[trigger] ekeys[h]).at == decs[h] && ekeys[h].rank == 0
        && ekeys[h].text@ == keys[h]@
}

proof fn lemma_decision_keys_order(keys: Seq<Vec<char>>, decs: Seq<Timestamp>, ekeys: Seq<SortKey>, a: usize, b: usize)
    requires
        decision_keys(keys, decs, ekeys),
        a < keys.len(), b < keys.len(),
        keys[a as int]@ != keys[b as int]@,
        key_lt(ekeys, a, b),
    ensures decision_lt(decs[a as int], keys[a as int]@, decs[b as int], keys[b as int]@),
{
    assert(ekeys[a as int].at == decs[a as int]);
    assert(ekeys[b as int].at == decs[b as int]);
}

/// Every setup's event is listed, or the list stopped at the limit before
/// reaching it: each listed decision then comes before that setup's.
pub open spec fn events_cover(ps: Seq<EventCandidate>, r: Seq<PatternEvent>, limit: Option<usize>) -> bool {
    forall|i: int| 0 <= i < ps.len() ==>
        (exists|e: int| 0 <= e < r.len() && #[trigger] r[e].event_key@ == event_key_text(#[trigger] ps[i]))
        || (limit matches Some(l) && r.len() == l && forall|e: int| 0 <= e < r.len() ==>
            decision_lt(#[trigger] r[e].decision_date, r[e].event_key@, ps[i].d_confirm_date, event_key_text(ps[i])))
}

/// What `build_pattern_events` returns for the setups `ps` and a limit:
/// full events with distinct keys, in strict decision order, no more than
/// the limit, and every setup's event listed unless the limit stopped the
/// list before it.
pub open spec fn events_built(ps: Seq<EventCandidate>, r: Seq<PatternEvent>, limit: Option<usize>) -> bool {
    &&& forall|e: int| 0 <= e < r.len() ==> is_full_event(ps, #[trigger] r[e])
    &&& forall|a: int, b: int| 0 <= a < r.len() && 0 <= b < r.len() && a != b
            ==> #[trigger] r[a].event_key@ != #[trigger] r[b].event_key@
    &&& forall|a: int, b: int| 0 <= a < b < r.len() ==> decision_lt(
            #[trigger] r[a].decision_date, r[a].event_key@, #[trigger] r[b].decision_date, r[b].event_key@)
    &&& (limit matches Some(l) ==> r.len() <= l)
    &&& events_cover(ps, r, limit)
}

/// Groups pattern setups into twin/event decisions. Setups with the same
/// event key form one event, decided at their earliest confirmation, with
/// its candidates in candidate order. Events come in decision order; with a
/// limit only that many of the first decisions are kept (see
/// `lemma_limit_keeps_first_events`).
pub fn build_pattern_events(patterns: &Vec<EventCandidate>, limit: Option<usize>) -> (r: Vec<PatternEvent>)
    ensures events_built(patterns@, r@, limit),
{
    let ghost ps = patterns@;
    let (keys, decs, mems) = group_setups(patterns);
    let ckeys = build_candidate_keys(patterns);
    let n_groups = keys.len();
    let mut sorted: Vec<Vec<usize>> = Vec::new();
    let mut g: usize = 0;
    while g < n_groups
        invariant
            n_groups == keys@.len(),
            groups_ok(ps, keys@, decs@, mems@, ps.len() as int),
            candidate_keys(ps, ckeys@),
            g <= n_groups,
            sorted@.len() == g,
            forall|h: int| 0 <= h < g ==> (#[trigger] sorted@[h])@.to_multiset() == mems@[h]@.to_multiset()
                && sorted@[h]@.len() == mems@[h]@.len() && strictly_sorted(ckeys@, sorted@[h]@),
        decreases n_groups - g,
    {
        proof {
            assert(group_ok(ps, keys@[g as int]@, decs@[g as int], mems@[g as int]@, ps.len() as int));
            lemma_increasing_no_dup(mems@[g as int]@);
        }
        let items = copy_positions(&mems[g]);
        let s = sort_positions(&ckeys, items);
        sorted.push(s);
        g = g + 1;
    }
    let mut ekeys: Vec<SortKey> = Vec::new();
    let mut h: usize = 0;
    while h < n_groups
        invariant
            n_groups == keys@.len() == decs@.len(),
            h <= n_groups,
            ekeys@.len() == h,
            forall|j: int| 0 <= j < h ==> (#[trigger] ekeys@[j]).at == decs@[j] && ekeys@[j].rank == 0
                && ekeys@[j].text@ == keys@[j]@,
        decreases n_groups - h,
    {
        ekeys.push(SortKey { at: decs[h], rank: 0, text: copy_chars(&keys[h]) });
        h = h + 1;
    }
    let all = positions_upto(n_groups);
    let ghost all_s = all@;
    let order = sort_positions(&ekeys, all);
    proof {
        assert forall|x: usize| order@.contains(x) <==> (x as int) < n_groups by {
            assert(order@.contains(x) <==> order@.to_multiset().count(x) > 0);
            assert(all_s.contains(x) <==> all_s.to_multiset().count(x) > 0);
            if (x as int) < n_groups {
                assert(all_s[x as int] == x);
            }
        }
    }
    let count: usize = match limit {
        Some(l) => if l < n_groups { l } else { n_groups },
        None => n_groups,
    };
    let mut out: Vec<PatternEvent> = Vec::new();
    let mut k: usize = 0;
    while k < count
        invariant
            ps == patterns@,
            n_groups == keys@.len() == decs@.len() == mems@.len() == sorted@.len() == order@.len(),
            groups_ok(ps, keys@, decs@, mems@, ps.len() as int),
            candidate_keys(ps, ckeys@),
            forall|h: int| 0 <= h < n_groups ==> (#[trigger] sorted@[h])@.to_multiset() == mems@[h]@.to_multiset()
                && sorted@[h]@.len() == mems@[h]@.len() && strictly_sorted(ckeys@, sorted@[h]@),
            forall|x: usize| order@.contains(x) <==> (x as int) < n_groups,
            count <= n_groups,
            k <= count,
            out@.len() == k,
            forall|j: int| 0 <= j < k ==> (#[trigger] out@[j]).event_key@ == keys@[order@[j] as int]@
                && out@[j].decision_date == decs@[order@[j] as int]
                && is_full_event(ps, out@[j]),
        decreases count - k,
    {
        let gi = order[k];
        proof {
            assert(order@.contains(gi));
            assert(group_ok(ps, keys@[gi as int]@, decs@[gi as int], mems@[gi as int]@, ps.len() as int));
            assert(mems@[gi as int]@.len() > 0);
            assert(mems@[gi as int]@.contains(mems@[gi as int]@[0]));
            assert((mems@[gi as int]@[0] as int) < ps.len());
        }
        let first = mems[gi][0];
        let event_id = match &patterns[first].event_id {
            Some(e) => clean_optional_text(Some(e.as_str())),
            None => None,
        };
        proof {
            assert(first == mems@[gi as int]@[0]);
            assert(view_opt(event_id) == clean_optional(view_opt(ps[first as int].event_id)));
        }
        let e = PatternEvent {
            event_key: string_of(&keys[gi]),
            event_id,
            decision_date: decs[gi],
            candidates: copy_positions(&sorted[gi]),
        };
        proof {
            lemma_group_event(ps, ckeys@, keys@[gi as int]@, decs@[gi as int], mems@[gi as int]@, sorted@[gi as int]@, e);
        }
        out.push(e);
        k = k + 1;
    }
    proof {
        assert forall|a: int, b: int| 0 <= a < out@.len() && 0 <= b < out@.len() && a != b
            implies #[trigger] out@[a].event_key@ != #[trigger] out@[b].event_key@ by {
            let (x, y) = if a < b { (a, b) } else { (b, a) };
            assert(key_lt(ekeys@, order@[x], order@[y]));
            crate::order::lemma_key_asymmetric(ekeys@, order@[x], order@[y]);
            assert(order@[x] != order@[y]);
            assert(order@.contains(order@[x]));
            assert(order@.contains(order@[y]));
        }
        assert forall|a: int, b: int| 0 <= a < b < out@.len() implies decision_lt(
            #[trigger] out@[a].decision_date, out@[a].event_key@, #[trigger] out@[b].decision_date, out@[b].event_key@) by {
            assert(key_lt(ekeys@, order@[a], order@[b]));
            crate::order::lemma_key_asymmetric(ekeys@, order@[a], order@[b]);
            assert(order@.contains(order@[a]));
            assert(order@.contains(order@[b]));
            assert(keys@[order@[a] as int]@ != keys@[order@[b] as int]@);
            lemma_decision_keys_order(keys@, decs@, ekeys@, order@[a], order@[b]);
        }
        assert forall|i: int| 0 <= i < ps.len() implies
            (exists|e: int| 0 <= e < out@.len() && #[trigger] out@[e].event_key@ == event_key_text(#[trigger] ps[i]))
            || (limit matches Some(l) && out@.len() == l && forall|e: int| 0 <= e < out@.len() ==>
                decision_lt(#[trigger] out@[e].decision_date, out@[e].event_key@, ps[i].d_confirm_date, event_key_text(ps[i]))) by {
            assert(ps.len() == patterns.len());
            let iu = i as usize;
            assert(iu as int == i);
            let gi = choose|g: int| 0 <= g < keys@.len() && #[trigger] keys@[g]@ == event_key_text(ps[i]);
            assert(keys@[gi]@ == event_key_text(ps[i]));
            assert(order@.contains(gi as usize));
            let p = choose|p: int| 0 <= p < order@.len() && order@[p] == gi as usize;
            if p < count {
                assert(out@[p].event_key@ == event_key_text(ps[i]));
            } else {
                assert(group_ok(ps, keys@[gi]@, decs@[gi], mems@[gi]@, ps.len() as int));
                assert(event_key_text(ps[iu as int]) == keys@[gi]@);
                assert(mems@[gi]@.contains(iu));
                let t = choose|t: int| 0 <= t < mems@[gi]@.len() && mems@[gi]@[t] == iu;
                assert(ts_le(decs@[gi], ps[mems@[gi]@[t] as int].d_confirm_date));
                assert forall|e: int| 0 <= e < out@.len() implies
                    decision_lt(#[trigger] out@[e].decision_date, out@[e].event_key@, ps[i].d_confirm_date, event_key_text(ps[i])) by {
                    assert(key_lt(ekeys@, order@[e], order@[p]));
                    crate::order::lemma_key_asymmetric(ekeys@, order@[e], order@[p]);
                    assert(order@.contains(order@[e]));
                    assert(keys@[order@[e] as int]@ != keys@[gi]@);
                    lemma_decision_keys_order(keys@, decs@, ekeys@, order@[e], order@[p]);
                }
            }
        }
    }
    out
}

/// How many of the candidates `cs` were confirmed by time `d`.
pub open spec fn count_live(ps: Seq<EventCandidate>, cs: Seq<usize>, d: Timestamp) -> nat
    decreases cs.len(),
{
    if cs.len() == 0 {
        0
    } else {
        count_live(ps, cs.drop_last(), d) + if ts_le(ps[cs.last() as int].d_confirm_date, d) { 1nat } else { 0nat }
    }
}

/// The number of an event's candidates confirmed by its decision time, at least one.
pub open spec fn live_count(ps: Seq<EventCandidate>, e: PatternEvent) -> int {
    let n = count_live(ps, e.candidates@, e.decision_date);
    if n == 0 { 1 } else { n as int }
}

/// How many of an event's candidates were confirmed by its decision time
/// (counted as one when none was).
pub fn live_event_candidate_count(patterns: &Vec<EventCandidate>, event: &PatternEvent) -> (r: i64)
    requires forall|k: int| 0 <= k < event.candidates@.len() ==> (#[trigger] event.candidates@[k]) < patterns@.len(),
    ensures r == live_count(patterns@, *event) as i64,
{
    let cs = &event.candidates;
    let mut n: usize = 0;
    let mut i: usize = 0;
    while i < cs.len()
        invariant
            i <= cs.len(),
            forall|k: int| 0 <= k < cs@.len() ==> (#[trigger] cs@[k]) < patterns@.len(),
            n == count_live(patterns@, cs@.take(i as int), event.decision_date),
            n <= i,
        decreases cs.len() - i,
    {
        let c = cs[i];
        proof {
            assert(cs@.take(i + 1).drop_last() =~= cs@.take(i as int));
        }
        if !ts_before(&event.decision_date, &patterns[c].d_confirm_date) {
            n = n + 1;
        }
        i = i + 1;
    }
    proof { assert(cs@.take(cs@.len() as int) =~= cs@); }
    if n == 0 { 1 } else { n as i64 }
}

/// Confirmed at or before `d`.
pub open spec fn confirmed_by(at: Timestamp, d: Timestamp) -> bool {
    at.secs < d.secs || (at.secs == d.secs && at.nanos <= d.nanos)
}

/// The candidates among `cs` confirmed at or before `d`.
pub open spec fn confirmed_candidates(ps: Seq<EventCandidate>, cs: Seq<usize>, d: Timestamp) -> Seq<usize> {
    cs.filter(|c: usize| confirmed_by(ps[c as int].d_confirm_date, d))
}

/// The candidates among `cs` confirmed exactly at `d`.
pub open spec fn confirmed_at(ps: Seq<EventCandidate>, cs: Seq<usize>, d: Timestamp) -> Seq<usize> {
    cs.filter(|c: usize| ps[c as int].d_confirm_date == d)
}

proof fn lemma_count_live_is_filter(ps: Seq<EventCandidate>, cs: Seq<usize>, d: Timestamp)
    ensures count_live(ps, cs, d) == confirmed_candidates(ps, cs, d).len(),
    decreases cs.len(),
{
    reveal(Seq::filter);
    if cs.len() > 0 {
        lemma_count_live_is_filter(ps, cs.drop_last(), d);
    }
}

proof fn lemma_filters_agree(cs: Seq<usize>, p: spec_fn(usize) -> bool, q: spec_fn(usize) -> bool)
    requires forall|k: int| 0 <= k < cs.len() ==> p(#[trigger] cs[k]) == q(cs[k]),
    ensures cs.filter(p) == cs.filter(q),
    decreases cs.len(),
{
    reveal(Seq::filter);
    if cs.len() > 0 {
        assert forall|k: int| 0 <= k < cs.drop_last().len() implies p(#[trigger] cs.drop_last()[k]) == q(cs.drop_last()[k]) by {
            assert(cs.drop_last()[k] == cs[k]);
        }
        lemma_filters_agree(cs.drop_last(), p, q);
        assert(cs.last() == cs[cs.len() - 1]);
    }
}

proof fn lemma_filter_keeps_all(cs: Seq<usize>, p: spec_fn(usize) -> bool)
    requires forall|k: int| 0 <= k < cs.len() ==> p(#[trigger] cs[k]),
    ensures cs.filter(p).len() == cs.len(),
    decreases cs.len(),
{
    reveal(Seq::filter);
    if cs.len() > 0 {
        assert forall|k: int| 0 <= k < cs.drop_last().len() implies p(#[trigger] cs.drop_last()[k]) by {
            assert(cs.drop_last()[k] == cs[k]);
        }
        lemma_filter_keeps_all(cs.drop_last(), p);
        assert(cs.last() == cs[cs.len() - 1]);
    }
}

/// The live count of an event is the number of its candidates confirmed at
/// or before its decision time (a candidate confirmed exactly at that time
/// counts), and one where there is none.
pub proof fn lemma_live_count_counts_confirmed_candidates(ps: Seq<EventCandidate>, e: PatternEvent)
    ensures
        live_count(ps, e) == if confirmed_candidates(ps, e.candidates@, e.decision_date).len() == 0 {
            1
        } else {
            confirmed_candidates(ps, e.candidates@, e.decision_date).len() as int
        },
        1 <= live_count(ps, e),
        live_count(ps, e) <= if e.candidates@.len() == 0 { 1 } else { e.candidates@.len() as int },
{
    lemma_count_live_is_filter(ps, e.candidates@, e.decision_date);
    let cs = e.candidates@;
    assert(cs.filter(|c: usize| confirmed_by(ps[c as int].d_confirm_date, e.decision_date)).len() <= cs.len()) by {
        broadcast use vstd::seq_lib::group_filter_ensures;
    }
}

/// For an event as `build_pattern_events` builds it, decided at its earliest
/// confirmation, the live count is the number of twins confirmed exactly at
/// the decision time; where every twin was confirmed then, it is the number
/// of candidates.
pub proof fn lemma_built_event_counts_twins_at_decision(ps: Seq<EventCandidate>, e: PatternEvent)
    requires is_full_event(ps, e),
    ensures
        live_count(ps, e) == confirmed_at(ps, e.candidates@, e.decision_date).len(),
        (forall|k: int| 0 <= k < e.candidates@.len() ==> ps[#[trigger] e.candidates@[k] as int].d_confirm_date == e.decision_date)
            ==> live_count(ps, e) == e.candidates@.len(),
{
    let cs = e.candidates@;
    let d = e.decision_date;
    let p = |c: usize| confirmed_by(ps[c as int].d_confirm_date, d);
    let q = |c: usize| ps[c as int].d_confirm_date == d;
    lemma_count_live_is_filter(ps, cs, d);
    assert forall|k: int| 0 <= k < cs.len() implies p(#[trigger] cs[k]) == q(cs[k]) by {
        assert(ts_le(d, ps[cs[k] as int].d_confirm_date));
    }
    lemma_filters_agree(cs, p, q);
    assert(confirmed_candidates(ps, cs, d) == cs.filter(p));
    assert(confirmed_at(ps, cs, d) == cs.filter(q));
    assert(ps[cs[0] as int].d_confirm_date == d);
    assert(q(cs[0]));
    assert(cs.filter(q).contains(cs[0])) by {
        broadcast use vstd::seq_lib::group_filter_ensures;
    }
    if forall|k: int| 0 <= k < cs.len() ==> ps[#[trigger] cs[k] as int].d_confirm_date == d {
        lemma_filter_keeps_all(cs, q);
    }
}

/// The earlier of two optional times, or whichever is present.
pub fn first_date(left: Option<Timestamp>, right: Option<Timestamp>) -> (r: Option<Timestamp>)
    ensures
        r == match (left, right) {
            (Some(a), Some(b)) => Some(if ts_lt(b, a) { b } else { a }),
            (Some(a), None) => Some(a),
            (None, Some(b)) => Some(b),
            (None, None) => None,
        },
{
    match (left, right) {
        (Some(a), Some(b)) => Some(crate::order::ts_min(a, b)),
        (Some(a), None) => Some(a),
        (None, Some(b)) => Some(b),
        (None, None) => None,
    }
}

/// The later of two optional times, or whichever is present.
pub fn last_date(left: Option<Timestamp>, right: Option<Timestamp>) -> (r: Option<Timestamp>)
    ensures
        r == match (left, right) {
            (Some(a), Some(b)) => Some(if ts_lt(a, b) { b } else { a }),
            (Some(a), None) => Some(a),
            (None, Some(b)) => Some(b),
            (None, None) => None,
        },
{
    match (left, right) {
        (Some(a), Some(b)) => Some(crate::order::ts_max(a, b)),
        (Some(a), None) => Some(a),
        (None, Some(b)) => Some(b),
        (None, None) => None,
    }
}

/// What `blake3::hash` of a text's UTF-8 bytes gives in lower-case hex.
pub uninterp spec fn blake3_hex(text: Seq<char>) -> Seq<char>;

pub open spec fn is_lower_hex(c: char) -> bool {
    ('0' <= c && c <= '9') || ('a' <= c && c <= 'f')
}

/// `blake3::hash` of the text's bytes, written by `Hash::to_hex`: 64
/// lower-case hexadecimal digits. The digest itself is named `blake3_hex`
/// and not stated.
#[verifier::external_body]
fn blake3_hex_of(text: &str) -> (r: String)
    ensures
        r@ == blake3_hex(text@),
        r@.len() == 64,
        forall|k: int| 0 <= k < r@.len() ==> is_lower_hex(#[trigger] r@[k]),
{
    blake3::hash(text.as_bytes()).to_hex().to_string()
}

/// The fields of a primary setup that its event id is derived from.
pub struct SetupIdentity {
    pub symbol: String,
    pub root_symbol: String,
    pub source_table: String,
    pub source_timeframe: String,
    pub market: String,
    pub setup_id: String,
}

/// The fields joined by `|`, the text that is hashed.
pub open spec fn identity_text(p: SetupIdentity) -> Seq<char> {
    p.symbol@ + "|"@ + p.root_symbol@ + "|"@ + p.source_table@ + "|"@ + p.source_timeframe@
        + "|"@ + p.market@ + "|"@ + p.setup_id@
}

/// `evt_` and the first 16 hex digits of the identity's hash.
pub open spec fn event_id_text(p: SetupIdentity) -> Seq<char> {
    "evt_"@ + blake3_hex(identity_text(p)).take(16)
}

/// The event id made from a setup hash in hex: `evt_` and its first 16 digits.
pub fn event_id_from_hex(hex: &str) -> (r: String)
    requires hex@.len() >= 16,
    ensures r@ == "evt_"@ + hex@.take(16),
{
    let h = chars_of(hex);
    let mut out = chars_of("evt_");
    let head = crate::text::slice_chars(&h, 0, 16);
    push_all(&mut out, &head);
    proof { assert(h@.subrange(0, 16) =~= h@.take(16)); }
    string_of(&out)
}

/// The event id given to an event after its primary setup.
pub fn event_id_for(primary: &SetupIdentity) -> (r: String)
    ensures r@ == event_id_text(*primary),
{
    let mut v = chars_of(primary.symbol.as_str());
    push_lit(&mut v, "|");
    push_lit(&mut v, primary.root_symbol.as_str());
    push_lit(&mut v, "|");
    push_lit(&mut v, primary.source_table.as_str());
    push_lit(&mut v, "|");
    push_lit(&mut v, primary.source_timeframe.as_str());
    push_lit(&mut v, "|");
    push_lit(&mut v, primary.market.as_str());
    push_lit(&mut v, "|");
    push_lit(&mut v, primary.setup_id.as_str());
    let input = string_of(&v);
    let hex = blake3_hex_of(input.as_str());
    event_id_from_hex(hex.as_str())
}

/// Events never share a setup: of two different events built from the same
/// setups (full events with distinct keys, as `build_pattern_events` returns
/// them), no setup belongs to both.
pub proof fn lemma_events_disjoint(ps: Seq<EventCandidate>, r: Seq<PatternEvent>, a: int, b: int, i: usize)
    requires
        forall|e: int| 0 <= e < r.len() ==> is_full_event(ps, #[trigger] r[e]),
        forall|x: int, y: int| 0 <= x < r.len() && 0 <= y < r.len() && x != y
            ==> #[trigger] r[x].event_key@ != #[trigger] r[y].event_key@,
        0 <= a < r.len(),
        0 <= b < r.len(),
        a != b,
    ensures !(has_member(r[a], i) && has_member(r[b], i)),
{
    if has_member(r[a], i) && has_member(r[b], i) {
        let ea = r[a];
        let eb = r[b];
        assert(is_full_event(ps, ea));
        assert(is_full_event(ps, eb));
        let ka = choose|k: int| 0 <= k < ea.candidates@.len() && ea.candidates@[k] == i;
        let kb = choose|k: int| 0 <= k < eb.candidates@.len() && eb.candidates@[k] == i;
        assert(event_key_text(ps[ea.candidates@[ka] as int]) == ea.event_key@);
        assert(event_key_text(ps[eb.candidates@[kb] as int]) == eb.event_key@);
    }
}

proof fn lemma_candidate_lt_strict(ps: Seq<EventCandidate>, a: usize, b: usize)
    ensures
        !candidate_lt(ps, a, a),
        !(candidate_lt(ps, a, b) && candidate_lt(ps, b, a)),
{
    lemma_text_irreflexive(ps[a as int].setup_id@);
    lemma_text_asymmetric(ps[a as int].setup_id@, ps[b as int].setup_id@);
    lemma_text_irreflexive(ps[b as int].setup_id@);
}

proof fn lemma_decision_lt_strict(d1: Timestamp, k1: Seq<char>, d2: Timestamp, k2: Seq<char>)
    ensures
        !decision_lt(d1, k1, d1, k1),
        !(decision_lt(d1, k1, d2, k2) && decision_lt(d2, k2, d1, k1)),
{
    lemma_text_irreflexive(k1);
    lemma_text_asymmetric(k1, k2);
}

/// Two candidate lists in strict candidate order with the same members
/// agree up to position `k`.
proof fn lemma_candidates_agree(ps: Seq<EventCandidate>, s: Seq<usize>, t: Seq<usize>, k: int)
    requires
        forall|a: int, b: int| 0 <= a < b < s.len() ==> candidate_lt(ps, #[trigger] s[a], #[trigger] s[b]),
        forall|a: int, b: int| 0 <= a < b < t.len() ==> candidate_lt(ps, #[trigger] t[a], #[trigger] t[b]),
        forall|v: usize| s.contains(v) <==> t.contains(v),
        0 <= k < s.len(),
        k < t.len(),
    ensures forall|j: int| 0 <= j <= k ==> s[j] == t[j],
    decreases k,
{
    if k > 0 {
        lemma_candidates_agree(ps, s, t, k - 1);
    }
    assert(t.contains(s[k]));
    let jt = choose|jt: int| 0 <= jt < t.len() && t[jt] == s[k];
    if jt < k {
        assert(s[jt] == t[jt]);
        lemma_candidate_lt_strict(ps, s[jt], s[k]);
        assert(candidate_lt(ps, s[jt], s[k]));
    } else if jt > k {
        assert(s.contains(t[k]));
        let is = choose|is: int| 0 <= is < s.len() && s[is] == t[k];
        lemma_candidate_lt_strict(ps, t[k], t[jt]);
        assert(candidate_lt(ps, t[k], t[jt]));
        if is < k {
            assert(s[is] == t[is]);
            lemma_candidate_lt_strict(ps, t[is], t[k]);
            assert(candidate_lt(ps, t[is], t[k]));
        } else if is > k {
            assert(candidate_lt(ps, s[k], s[is]));
        }
    }
}

/// Two full events of one key are the same event: the same candidates, in
/// the same order, decided at the same time, with the same event id.
proof fn lemma_full_events_agree(ps: Seq<EventCandidate>, x: PatternEvent, y: PatternEvent)
    requires
        is_full_event(ps, x),
        is_full_event(ps, y),
        x.event_key@ == y.event_key@,
    ensures
        x.candidates@ == y.candidates@,
        x.decision_date == y.decision_date,
        view_opt(x.event_id) == view_opt(y.event_id),
{
    let s = x.candidates@;
    let t = y.candidates@;
    assert forall|v: usize| s.contains(v) <==> t.contains(v) by {
        if s.contains(v) {
            let k = choose|k: int| 0 <= k < s.len() && s[k] == v;
            assert(v < ps.len() && event_key_text(ps[s[k] as int]) == x.event_key@);
            assert(has_member(y, v));
        }
        if t.contains(v) {
            let k = choose|k: int| 0 <= k < t.len() && t[k] == v;
            assert(v < ps.len() && event_key_text(ps[t[k] as int]) == y.event_key@);
            assert(has_member(x, v));
        }
    }
    let m = if s.len() <= t.len() { s.len() } else { t.len() };
    lemma_candidates_agree(ps, s, t, m - 1);
    if t.len() > s.len() {
        assert(s.contains(t[s.len() as int]));
        let i = choose|i: int| 0 <= i < s.len() && s[i] == t[s.len() as int];
        assert(t[i] == s[i]);
        lemma_candidate_lt_strict(ps, t[i], t[i]);
        assert(candidate_lt(ps, t[i], t[s.len() as int]));
    } else if s.len() > t.len() {
        assert(t.contains(s[t.len() as int]));
        let i = choose|i: int| 0 <= i < t.len() && t[i] == s[t.len() as int];
        assert(t[i] == s[i]);
        lemma_candidate_lt_strict(ps, s[i], s[i]);
        assert(candidate_lt(ps, s[i], s[t.len() as int]));
    }
    assert(s =~= t);
    let j = lemma_least_member(s);
    assert(has_member(x, j) && forall|c: usize| has_member(x, c) ==> j <= c);
    assert(has_member(y, j) && forall|c: usize| has_member(y, c) ==> j <= c);
}

/// A non-empty list of positions has a least one.
proof fn lemma_least_member(s: Seq<usize>) -> (j: usize)
    requires s.len() > 0,
    ensures s.contains(j), forall|c: usize| s.contains(c) ==> j <= c,
    decreases s.len(),
{
    if s.len() == 1 {
        assert(s[0] == s[0]);
        assert forall|c: usize| s.contains(c) implies s[0] <= c by {
            let k = choose|k: int| 0 <= k < s.len() && s[k] == c;
        }
        s[0]
    } else {
        let r = s.drop_last();
        let m = lemma_least_member(r);
        let last = s.last();
        assert(s[s.len() - 1] == last);
        let k0 = choose|k: int| 0 <= k < r.len() && r[k] == m;
        assert(s[k0] == m);
        let j = if last < m { last } else { m };
        assert forall|c: usize| s.contains(c) implies j <= c by {
            let k = choose|k: int| 0 <= k < s.len() && s[k] == c;
            if k < s.len() - 1 {
                assert(r[k] == c);
                assert(r.contains(c));
            }
        }
        j
    }
}

/// The events of a limited and an unlimited build agree up to position `e`.
proof fn lemma_limited_prefix(ps: Seq<EventCandidate>, all: Seq<PatternEvent>, lim: Seq<PatternEvent>, n: usize, e: int)
    requires
        events_built(ps, all, None),
        events_built(ps, lim, Some(n)),
        0 <= e < lim.len(),
    ensures
        forall|f: int| 0 <= f <= e ==> f < all.len() && #[trigger] lim[f].event_key@ == all[f].event_key@,
    decreases e,
{
    if e > 0 {
        lemma_limited_prefix(ps, all, lim, n, e - 1);
    }
    let be = lim[e];
    assert(is_full_event(ps, be));
    let c = be.candidates@[0];
    assert(event_key_text(ps[c as int]) == be.event_key@);
    assert(events_cover(ps, all, None));
    assert(exists|x: int| 0 <= x < all.len() && #[trigger] all[x].event_key@ == event_key_text(ps[c as int]));
    let j = choose|x: int| 0 <= x < all.len() && #[trigger] all[x].event_key@ == event_key_text(ps[c as int]);
    assert(is_full_event(ps, all[j]));
    lemma_full_events_agree(ps, be, all[j]);
    if j < e {
        assert(lim[j].event_key@ == all[j].event_key@);
        assert(lim[j].event_key@ != lim[e].event_key@);
    } else if j > e {
        let ae = all[e];
        assert(is_full_event(ps, ae));
        assert(decision_lt(all[e].decision_date, all[e].event_key@, all[j].decision_date, all[j].event_key@));
        lemma_decision_lt_strict(all[e].decision_date, all[e].event_key@, all[j].decision_date, all[j].event_key@);
        assert forall|i: int| 0 <= i < lim.len() implies #[trigger] lim[i].event_key@ != ae.event_key@ by {
            if lim[i].event_key@ == ae.event_key@ {
                if i < e {
                    assert(lim[i].event_key@ == all[i].event_key@);
                    assert(all[i].event_key@ != all[e].event_key@);
                } else if i == e {
                    assert(all[j].event_key@ != all[e].event_key@);
                } else {
                    assert(is_full_event(ps, lim[i]));
                    lemma_full_events_agree(ps, lim[i], ae);
                    assert(decision_lt(lim[e].decision_date, lim[e].event_key@, lim[i].decision_date, lim[i].event_key@));
                }
            }
        }
        let ca = ae.candidates@[0];
        assert(event_key_text(ps[ca as int]) == ae.event_key@);
        assert(ps[ca as int].d_confirm_date == ae.decision_date);
        assert(events_cover(ps, lim, Some(n)));
        let pa = ps[ca as int];
        assert(0 <= ca < ps.len());
        if exists|x: int| 0 <= x < lim.len() && #[trigger] lim[x].event_key@ == event_key_text(pa) {
            let x = choose|x: int| 0 <= x < lim.len() && #[trigger] lim[x].event_key@ == event_key_text(pa);
            assert(lim[x].event_key@ != ae.event_key@);
        } else {
            assert(ps[ca as int] == pa);
            assert(decision_lt(lim[e].decision_date, lim[e].event_key@, pa.d_confirm_date, event_key_text(pa)));
        }
    }
}

/// What the two builds agree on for one event.
pub open spec fn same_event(a: PatternEvent, b: PatternEvent) -> bool {
    &&& a.event_key@ == b.event_key@
    &&& a.event_id_view() == b.event_id_view()
    &&& a.decision_date == b.decision_date
    &&& a.candidates@ == b.candidates@
}

impl PatternEvent {
    /// The event id as text.
    pub open spec fn event_id_view(self) -> Option<Seq<char>> {
        view_opt(self.event_id)
    }
}

/// A limit keeps the first decisions. For the same setups `ps`, let `all` be
/// what `build_pattern_events(ps, None)` returns and `lim` what
/// `build_pattern_events(ps, Some(n))` returns (each described by its
/// `events_built` contract). Then `lim` holds min(n, `all.len()`) events, and
/// each is the same event (key, id, decision time and ordered candidates) as
/// the one at its place in `all`: the limited call gives the first events of
/// the unlimited one.
pub proof fn lemma_limit_keeps_first_events(ps: Seq<EventCandidate>, all: Seq<PatternEvent>, lim: Seq<PatternEvent>, n: usize)
    requires
        events_built(ps, all, None),
        events_built(ps, lim, Some(n)),
    ensures
        lim.len() == if n < all.len() { n as int } else { all.len() as int },
        forall|e: int| 0 <= e < lim.len() ==> same_event(#[trigger] lim[e], all[e]),
{
    if lim.len() > 0 {
        lemma_limited_prefix(ps, all, lim, n, lim.len() - 1);
    }
    assert forall|e: int| 0 <= e < lim.len() implies same_event(#[trigger] lim[e], all[e]) by {
        assert(lim[e].event_key@ == all[e].event_key@);
        assert(is_full_event(ps, lim[e]));
        assert(is_full_event(ps, all[e]));
        lemma_full_events_agree(ps, lim[e], all[e]);
    }
    let m = lim.len() as int;
    if lim.len() > 0 {
        assert(lim[m - 1].event_key@ == all[m - 1].event_key@);
        assert(m - 1 < all.len());
    }
    if m < n && m < all.len() {
        let am = all[m];
        assert(is_full_event(ps, am));
        let ca = am.candidates@[0];
        let pa = ps[ca as int];
        assert(event_key_text(pa) == am.event_key@);
        assert(events_cover(ps, lim, Some(n)));
        if exists|x: int| 0 <= x < lim.len() && #[trigger] lim[x].event_key@ == event_key_text(pa) {
            let x = choose|x: int| 0 <= x < lim.len() && #[trigger] lim[x].event_key@ == event_key_text(pa);
            assert(lim[x].event_key@ == all[x].event_key@);
            assert(all[x].event_key@ != all[m].event_key@);
        } else {
            assert(0 <= ca < ps.len());
            assert(ps[ca as int] == pa);
        }
    }
}

} // verus!
