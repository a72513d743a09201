//! Per-root summaries of the futures contracts listed in the symbol
//! metadata: how many contracts, the span they are available over, and the
//! first and last contract symbols.
use vstd::prelude::*;
use crate::text::{chars_of, string_of};
use crate::order::{lemma_text_asymmetric, lemma_text_irreflexive, lemma_text_total, lemma_text_transitive, text_before, text_lt};
use crate::options::view_opt;

verus! {

/// What is known of a root's contracts so far.
pub struct RootSummary {
    pub contracts: i64,
    pub first_available_ns: Option<i64>,
    pub last_available_ns: Option<i64>,
    pub first_symbol: Option<String>,
    pub last_symbol: Option<String>,
}

/// The earlier of a known start and a new one; an absent new value changes nothing.
pub open spec fn earliest(current: Option<i64>, value: Option<i64>) -> Option<i64> {
    match (current, value) {
        (Some(c), Some(v)) => Some(if v < c { v } else { c }),
        (None, Some(v)) => Some(v),
        (c, None) => c,
    }
}

/// The later of a known end and a new one; an absent new value changes nothing.
pub open spec fn latest(current: Option<i64>, value: Option<i64>) -> Option<i64> {
    match (current, value) {
        (Some(c), Some(v)) => Some(if c <= v { v } else { c }),
        (None, Some(v)) => Some(v),
        (c, None) => c,
    }
}

/// The first symbol in text order among the known one and a new one.
pub open spec fn first_text(current: Option<Seq<char>>, s: Seq<char>) -> Seq<char> {
    match current {
        Some(c) => if text_lt(s, c) { s } else { c },
        None => s,
    }
}

/// The last symbol in text order among the known one and a new one.
pub open spec fn last_text(current: Option<Seq<char>>, s: Seq<char>) -> Seq<char> {
    match current {
        Some(c) => if text_lt(c, s) || c == s { s } else { c },
        None => s,
    }
}

fn earliest_of(current: Option<i64>, value: Option<i64>) -> (r: Option<i64>)
    ensures r == earliest(current, value),
{
    match (current, value) {
        (Some(c), Some(v)) => Some(if v < c { v } else { c }),
        (None, Some(v)) => Some(v),
        (c, None) => c,
    }
}

fn latest_of(current: Option<i64>, value: Option<i64>) -> (r: Option<i64>)
    ensures r == latest(current, value),
{
    match (current, value) {
        (Some(c), Some(v)) => Some(if c <= v { v } else { c }),
        (None, Some(v)) => Some(v),
        (c, None) => c,
    }
}

/// `after` is `before` with one more contract of the root counted.
pub open spec fn recorded_contract(before: RootSummary, after: RootSummary, raw_symbol: Seq<char>, activation_ns: Option<i64>, expiration_ns: Option<i64>) -> bool {
    &&& after.contracts == before.contracts + 1
    &&& after.first_available_ns == earliest(before.first_available_ns, activation_ns)
    &&& after.last_available_ns == latest(before.last_available_ns, expiration_ns)
    &&& view_opt(after.first_symbol) == Some(first_text(view_opt(before.first_symbol), raw_symbol))
    &&& view_opt(after.last_symbol) == Some(last_text(view_opt(before.last_symbol), raw_symbol))
}

/// A root with no contracts seen.
pub open spec fn empty_summary() -> RootSummary {
    RootSummary { contracts: 0, first_available_ns: None, last_available_ns: None, first_symbol: None, last_symbol: None }
}

impl RootSummary {
    /// A root with no contracts seen yet.
    pub fn new() -> (r: RootSummary)
        ensures
            r.contracts == 0,
            r.first_available_ns is None,
            r.last_available_ns is None,
            r.first_symbol is None,
            r.last_symbol is None,
    {
        RootSummary { contracts: 0, first_available_ns: None, last_available_ns: None, first_symbol: None, last_symbol: None }
    }

    /// Counts one more contract of the root: its availability widens the span
    /// and its symbol may become the first or the last.
    pub fn record(&mut self, raw_symbol: &str, activation_ns: Option<i64>, expiration_ns: Option<i64>)
        requires old(self).contracts < i64::MAX,
        ensures recorded_contract(*old(self), *final(self), raw_symbol@, activation_ns, expiration_ns),
    {
        self.contracts = self.contracts + 1;
        self.first_available_ns = earliest_of(self.first_available_ns, activation_ns);
        self.last_available_ns = latest_of(self.last_available_ns, expiration_ns);
        let s = chars_of(raw_symbol);
        let first = match &self.first_symbol {
            Some(c) => {
                let cv = chars_of(c.as_str());
                if text_before(&s, &cv) { string_of(&s) } else { string_of(&cv) }
            }
            None => string_of(&s),
        };
        let last = match &self.last_symbol {
            Some(c) => {
                let cv = chars_of(c.as_str());
                if text_before(&cv, &s) || crate::text::chars_eq(&cv, &s) { string_of(&s) } else { string_of(&cv) }
            }
            None => string_of(&s),
        };
        self.first_symbol = Some(first);
        self.last_symbol = Some(last);
    }
}

/// The summary of one root.
pub struct RootEntry {
    pub root_symbol: String,
    pub summary: RootSummary,
}

/// The roots are in strict text order.
pub open spec fn roots_sorted(e: Seq<RootEntry>) -> bool {
    forall|i: int, j: int| 0 <= i < j < e.len() ==> text_lt(e[i].root_symbol@, e[j].root_symbol@)
}

/// Whether an entry of the summaries is for the root.
pub open spec fn has_root(e: Seq<RootEntry>, root: Seq<char>) -> bool {
    exists|i: int| 0 <= i < e.len() && (#[trigger] e[i]).root_symbol@ == root
}

fn copy_opt(o: &Option<String>) -> (r: Option<String>)
    ensures view_opt(r) == view_opt(*o),
{
    match o {
        Some(s) => Some(s.clone()),
        None => None,
    }
}

/// Counts one contract under its root, keeping the roots in text order as a
/// `BTreeMap` would: returns where the root's summary stands; `None`, with
/// nothing changed, where the root's contract count is already `i64::MAX`.
#[verifier::rlimit(40)]
pub fn record_contract(
    entries: &mut Vec<RootEntry>,
    root_symbol: String,
    raw_symbol: &str,
    activation_ns: Option<i64>,
    expiration_ns: Option<i64>,
) -> (r: Option<usize>)
    requires roots_sorted(old(entries)@),
    ensures
        roots_sorted(final(entries)@),
        match r {
            None => {
                &&& final(entries)@ == old(entries)@
                &&& exists|i: int| 0 <= i < old(entries)@.len() && (#[trigger] old(entries)@[i]).root_symbol@ == root_symbol@
                    && old(entries)@[i].summary.contracts == i64::MAX
            },
            Some(idx) => {
                &&& idx < final(entries)@.len()
                &&& final(entries)@[idx as int].root_symbol@ == root_symbol@
                &&& has_root(old(entries)@, root_symbol@) ==> {
                    &&& idx < old(entries)@.len()
                    &&& old(entries)@[idx as int].root_symbol@ == root_symbol@
                    &&& final(entries)@.len() == old(entries)@.len()
                    &&& recorded_contract(old(entries)@[idx as int].summary, final(entries)@[idx as int].summary, raw_symbol@, activation_ns, expiration_ns)
                    &&& forall|i: int| 0 <= i < old(entries)@.len() && i != idx ==> #[trigger] final(entries)@[i] == old(entries)@[i]
                }
                &&& !has_root(old(entries)@, root_symbol@) ==> {
                    &&& final(entries)@.len() == old(entries)@.len() + 1
                    &&& recorded_contract(empty_summary(), final(entries)@[idx as int].summary, raw_symbol@, activation_ns, expiration_ns)
                    &&& forall|i: int| 0 <= i < idx ==> #[trigger] final(entries)@[i] == old(entries)@[i]
                    &&& forall|i: int| idx < i < final(entries)@.len() ==> #[trigger] final(entries)@[i] == old(entries)@[i - 1]
                }
            },
        },
{
    let ghost before = entries@;
    let key = chars_of(root_symbol.as_str());
    let mut p: usize = 0;
    while p < entries.len() && text_before(&chars_of(entries[p].root_symbol.as_str()), &key)
        invariant
            p <= entries@.len(),
            entries@ == before,
            key@ == root_symbol@,
            forall|q: int| 0 <= q < p ==> text_lt((#[trigger] entries@[q]).root_symbol@, root_symbol@),
        decreases entries.len() - p,
    {
        p = p + 1;
    }
    if p < entries.len() && crate::text::str_eq(entries[p].root_symbol.as_str(), root_symbol.as_str()) {
        if entries[p].summary.contracts == 9223372036854775807 {
            return None;
        }
        let cur = &entries[p].summary;
        let mut summary = RootSummary {
            contracts: cur.contracts,
            first_available_ns: cur.first_available_ns,
            last_available_ns: cur.last_available_ns,
            first_symbol: copy_opt(&cur.first_symbol),
            last_symbol: copy_opt(&cur.last_symbol),
        };
        summary.record(raw_symbol, activation_ns, expiration_ns);
        entries.set(p, RootEntry { root_symbol, summary });
        proof {
            assert forall|a: int, b: int| 0 <= a < b < entries@.len() implies text_lt(entries@[a].root_symbol@, entries@[b].root_symbol@) by {
                assert(entries@[a].root_symbol@ == before[a].root_symbol@);
                assert(entries@[b].root_symbol@ == before[b].root_symbol@);
            }
        }
        Some(p)
    } else {
        let ghost k = root_symbol@;
        proof {
            if p < before.len() {
                lemma_text_total(before[p as int].root_symbol@, k);
            }
            assert forall|i: int| 0 <= i < before.len() implies (#[trigger] before[i]).root_symbol@ != k by {
                if i < p {
                    lemma_text_irreflexive(k);
                } else if before[i].root_symbol@ == k && i > p {
                    assert(text_lt(before[p as int].root_symbol@, before[i].root_symbol@));
                    lemma_text_asymmetric(k, before[p as int].root_symbol@);
                }
            }
        }
        let mut summary = RootSummary::new();
        summary.record(raw_symbol, activation_ns, expiration_ns);
        entries.insert(p, RootEntry { root_symbol, summary });
        proof {
            assert forall|a: int, b: int| 0 <= a < b < entries@.len() implies text_lt(entries@[a].root_symbol@, entries@[b].root_symbol@) by {
                if b < p {
                } else if b == p {
                } else if a < p {
                    assert(entries@[b] == before[b - 1]);
                    if b - 1 > p {
                        assert(text_lt(before[p as int].root_symbol@, before[b - 1].root_symbol@));
                        lemma_text_transitive(k, before[p as int].root_symbol@, before[b - 1].root_symbol@);
                    }
                    lemma_text_transitive(before[a].root_symbol@, k, before[b - 1].root_symbol@);
                } else if a == p {
                    assert(entries@[b] == before[b - 1]);
                    if b - 1 > p {
                        assert(text_lt(before[p as int].root_symbol@, before[b - 1].root_symbol@));
                        lemma_text_transitive(k, before[p as int].root_symbol@, before[b - 1].root_symbol@);
                    }
                } else {
                    assert(entries@[a] == before[a - 1]);
                    assert(entries@[b] == before[b - 1]);
                }
            }
        }
        Some(p)
    }
}

} // verus!
