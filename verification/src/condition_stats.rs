//! Template results broken down by condition: the condition values a result
//! is filed under, and the outcome counts kept for each.
use vstd::prelude::*;
use crate::conditions::{
    clean_condition_value, condition_text, confirm_quarter_value, confirm_session_value, confirm_year_value,
    first_clean_condition_value, first_condition_text, length_bucket_text, pattern_length_bucket,
    quarter_text, session_text, trend_condition_value, trend_text, year_text, CalendarStamp,
};
use crate::options::view_opt;
use crate::text::{chars_of, eq_lit, owned, string_of, trim};
use crate::storage::{key_before, key_eq, key_view, lemma_parts_asymmetric, lemma_parts_irreflexive, lemma_parts_total, lemma_parts_transitive, parts_lt};

verus! {

/// What a template result and its pattern setup say of the conditions it
/// was taken under.
pub struct ConditionFields {
    pub market: Option<String>,
    pub symbol: Option<String>,
    pub root_symbol: Option<String>,
    pub source_timeframe: Option<String>,
    pub family_harmonic_type: Option<String>,
    pub harmonic_type: Option<String>,
    pub family_bin: Option<String>,
    pub family_size_bucket: Option<String>,
    pub family_time_bin: Option<String>,
    pub family_x_strictness: Option<String>,
    pub three_month: Option<i64>,
    pub six_month: Option<i64>,
    pub twelve_month: Option<i64>,
    pub trade_direction: Option<String>,
    pub exit_reason: Option<String>,
    pub d_confirm: Option<CalendarStamp>,
    pub full_pattern_length: Option<i64>,
}

/// The condition types and values a result is filed under, in order.
pub open spec fn condition_list(f: ConditionFields) -> Seq<(Seq<char>, Seq<char>)> {
    seq![
        ("market"@, condition_text(view_opt(f.market))),
        ("symbol"@, condition_text(view_opt(f.symbol))),
        ("root_symbol"@, first_condition_text(view_opt(f.root_symbol), view_opt(f.symbol))),
        ("source_timeframe"@, condition_text(view_opt(f.source_timeframe))),
        ("harmonic_type"@, first_condition_text(view_opt(f.family_harmonic_type), view_opt(f.harmonic_type))),
        ("family_bin"@, condition_text(view_opt(f.family_bin))),
        ("family_size_bucket"@, condition_text(view_opt(f.family_size_bucket))),
        ("family_time_bin"@, condition_text(view_opt(f.family_time_bin))),
        ("family_x_strictness"@, condition_text(view_opt(f.family_x_strictness))),
        ("trend_3m"@, trend_text(f.three_month)),
        ("trend_6m"@, trend_text(f.six_month)),
        ("trend_12m"@, trend_text(f.twelve_month)),
        ("trade_direction"@, condition_text(view_opt(f.trade_direction))),
        ("exit_reason"@, condition_text(view_opt(f.exit_reason))),
        ("confirm_year"@, year_text(f.d_confirm)),
        ("confirm_quarter"@, quarter_text(f.d_confirm)),
        ("confirm_session"@, session_text(f.d_confirm)),
        ("pattern_length_bucket"@, length_bucket_text(f.full_pattern_length)),
    ]
}

/// The views of condition pairs.
pub open spec fn pair_views(v: Seq<(&'static str, String)>) -> Seq<(Seq<char>, Seq<char>)> {
    v.map_values(|p: (&'static str, String)| (p.0@, p.1@))
}

fn copy_text(o: &Option<String>) -> (r: Option<String>)
    ensures view_opt(r) == view_opt(*o),
{
    match o {
        Some(s) => Some(string_of(&chars_of(s.as_str()))),
        None => None,
    }
}

/// The condition types and values of a result.
#[verifier::rlimit(40)]
pub fn condition_values(f: &ConditionFields) -> (r: Vec<(&'static str, String)>)
    ensures pair_views(r@) == condition_list(*f),
{
    let ghost want = condition_list(*f);
    let mut v: Vec<(&'static str, String)> = Vec::new();
    v.push(("market", clean_condition_value(copy_text(&f.market))));
    v.push(("symbol", clean_condition_value(copy_text(&f.symbol))));
    v.push(("root_symbol", first_clean_condition_value(copy_text(&f.root_symbol), copy_text(&f.symbol))));
    v.push(("source_timeframe", clean_condition_value(copy_text(&f.source_timeframe))));
    v.push(("harmonic_type", first_clean_condition_value(copy_text(&f.family_harmonic_type), copy_text(&f.harmonic_type))));
    v.push(("family_bin", clean_condition_value(copy_text(&f.family_bin))));
    proof { assert(pair_views(v@) =~= want.take(6)); }
    v.push(("family_size_bucket", clean_condition_value(copy_text(&f.family_size_bucket))));
    v.push(("family_time_bin", clean_condition_value(copy_text(&f.family_time_bin))));
    v.push(("family_x_strictness", clean_condition_value(copy_text(&f.family_x_strictness))));
    v.push(("trend_3m", trend_condition_value(f.three_month)));
    v.push(("trend_6m", trend_condition_value(f.six_month)));
    v.push(("trend_12m", trend_condition_value(f.twelve_month)));
    proof { assert(pair_views(v@) =~= want.take(12)); }
    v.push(("trade_direction", clean_condition_value(copy_text(&f.trade_direction))));
    v.push(("exit_reason", clean_condition_value(copy_text(&f.exit_reason))));
    v.push(("confirm_year", confirm_year_value(f.d_confirm)));
    v.push(("confirm_quarter", confirm_quarter_value(f.d_confirm)));
    v.push(("confirm_session", confirm_session_value(f.d_confirm)));
    v.push(("pattern_length_bucket", pattern_length_bucket(f.full_pattern_length)));
    proof { assert(pair_views(v@) =~= want); }
    v
}

/// A text field that is present and not blank.
pub open spec fn given_text(field: Option<Seq<char>>) -> bool {
    field is Some && trim(field->0).len() > 0
}

/// A text field filed as `value`: its trimmed text where it is given, else
/// `Unknown`.
pub open spec fn filed_text(field: Option<Seq<char>>, value: Seq<char>) -> bool {
    if given_text(field) { value == trim(field->0) } else { value == "Unknown"@ }
}

/// A value filed from a primary field with a fallback: the primary's trimmed
/// text where it is given and not `Unknown`, else the fallback filed as a
/// text field.
pub open spec fn filed_with_fallback(primary: Option<Seq<char>>, fallback: Option<Seq<char>>, value: Seq<char>) -> bool {
    if given_text(primary) && trim(primary->0) != "Unknown"@ {
        value == trim(primary->0)
    } else {
        filed_text(fallback, value)
    }
}

/// The root symbol condition is the stored root symbol, trimmed, whatever
/// the contract symbol is; only where the root is absent, blank or
/// `Unknown` is the contract symbol filed in its place. The family harmonic
/// type likewise comes before the setup's harmonic type.
pub proof fn lemma_root_symbol_condition(f: ConditionFields)
    ensures
        condition_list(f)[2].0 == "root_symbol"@,
        filed_with_fallback(view_opt(f.root_symbol), view_opt(f.symbol), condition_list(f)[2].1),
        given_text(view_opt(f.root_symbol)) && trim(view_opt(f.root_symbol)->0) != "Unknown"@
            ==> condition_list(f)[2].1 == trim(view_opt(f.root_symbol)->0),
        condition_list(f)[4].0 == "harmonic_type"@,
        filed_with_fallback(view_opt(f.family_harmonic_type), view_opt(f.harmonic_type), condition_list(f)[4].1),
{
}

/// Each plain text condition is filed under its field's trimmed text, or
/// `Unknown` where the field is absent or blank, and the trend conditions
/// read a non-zero flag as `Bullish` and zero as `Bearish`.
pub proof fn lemma_text_conditions_filed(f: ConditionFields)
    ensures
        condition_list(f).len() == 18,
        condition_list(f)[0].0 == "market"@ && filed_text(view_opt(f.market), condition_list(f)[0].1),
        condition_list(f)[1].0 == "symbol"@ && filed_text(view_opt(f.symbol), condition_list(f)[1].1),
        condition_list(f)[3].0 == "source_timeframe"@ && filed_text(view_opt(f.source_timeframe), condition_list(f)[3].1),
        condition_list(f)[5].0 == "family_bin"@ && filed_text(view_opt(f.family_bin), condition_list(f)[5].1),
        condition_list(f)[6].0 == "family_size_bucket"@ && filed_text(view_opt(f.family_size_bucket), condition_list(f)[6].1),
        condition_list(f)[7].0 == "family_time_bin"@ && filed_text(view_opt(f.family_time_bin), condition_list(f)[7].1),
        condition_list(f)[8].0 == "family_x_strictness"@ && filed_text(view_opt(f.family_x_strictness), condition_list(f)[8].1),
        condition_list(f)[9].0 == "trend_3m"@,
        condition_list(f)[10].0 == "trend_6m"@,
        condition_list(f)[11].0 == "trend_12m"@,
        f.three_month is None ==> condition_list(f)[9].1 == "Unknown"@,
        f.three_month matches Some(v) && v != 0 ==> condition_list(f)[9].1 == "Bullish"@,
        f.three_month == Some(0i64) ==> condition_list(f)[9].1 == "Bearish"@,
        f.six_month is None ==> condition_list(f)[10].1 == "Unknown"@,
        f.six_month matches Some(v) && v != 0 ==> condition_list(f)[10].1 == "Bullish"@,
        f.six_month == Some(0i64) ==> condition_list(f)[10].1 == "Bearish"@,
        f.twelve_month is None ==> condition_list(f)[11].1 == "Unknown"@,
        f.twelve_month matches Some(v) && v != 0 ==> condition_list(f)[11].1 == "Bullish"@,
        f.twelve_month == Some(0i64) ==> condition_list(f)[11].1 == "Bearish"@,
        condition_list(f)[12].0 == "trade_direction"@ && filed_text(view_opt(f.trade_direction), condition_list(f)[12].1),
        condition_list(f)[13].0 == "exit_reason"@ && filed_text(view_opt(f.exit_reason), condition_list(f)[13].1),
{
}

/// What a template creator's result says of the conditions it was taken
/// under.
pub struct CreatorResultFields {
    pub market: String,
    pub pattern_family_key: Option<String>,
    pub symbol: String,
    pub root_symbol: String,
    pub exchange_name: String,
    pub source_timeframe: String,
    pub trade_direction: Option<String>,
    pub exit_reason: String,
    pub d_confirm: CalendarStamp,
}

/// The condition types and values a creator's result is filed under, in order.
pub open spec fn creator_condition_list(f: CreatorResultFields) -> Seq<(Seq<char>, Seq<char>)> {
    seq![
        ("market"@, condition_text(Some(f.market@))),
        ("pattern_family_key"@, condition_text(view_opt(f.pattern_family_key))),
        ("symbol"@, condition_text(Some(f.symbol@))),
        ("root_symbol"@, condition_text(Some(f.root_symbol@))),
        ("exchange"@, condition_text(Some(f.exchange_name@))),
        ("source_timeframe"@, condition_text(Some(f.source_timeframe@))),
        ("trade_direction"@, condition_text(view_opt(f.trade_direction))),
        ("exit_reason"@, condition_text(Some(f.exit_reason@))),
        ("confirm_year"@, condition_text(Some(year_text(Some(f.d_confirm))))),
        ("confirm_session"@, condition_text(Some(session_text(Some(f.d_confirm))))),
    ]
}

/// A creator's result files each text condition under its own field,
/// trimmed, or `Unknown` where that field is blank: the root symbol under
/// the root, the contract symbol under the symbol.
pub proof fn lemma_creator_text_conditions_filed(f: CreatorResultFields)
    ensures
        creator_condition_list(f).len() == 10,
        creator_condition_list(f)[0].0 == "market"@ && filed_text(Some(f.market@), creator_condition_list(f)[0].1),
        creator_condition_list(f)[1].0 == "pattern_family_key"@
            && filed_text(view_opt(f.pattern_family_key), creator_condition_list(f)[1].1),
        creator_condition_list(f)[2].0 == "symbol"@ && filed_text(Some(f.symbol@), creator_condition_list(f)[2].1),
        creator_condition_list(f)[3].0 == "root_symbol"@ && filed_text(Some(f.root_symbol@), creator_condition_list(f)[3].1),
        creator_condition_list(f)[4].0 == "exchange"@ && filed_text(Some(f.exchange_name@), creator_condition_list(f)[4].1),
        creator_condition_list(f)[5].0 == "source_timeframe"@
            && filed_text(Some(f.source_timeframe@), creator_condition_list(f)[5].1),
        creator_condition_list(f)[6].0 == "trade_direction"@
            && filed_text(view_opt(f.trade_direction), creator_condition_list(f)[6].1),
        creator_condition_list(f)[7].0 == "exit_reason"@ && filed_text(Some(f.exit_reason@), creator_condition_list(f)[7].1),
{
}

fn some_copy(s: &String) -> (r: Option<String>)
    ensures view_opt(r) == Some(s@),
{
    Some(s.clone())
}

/// The condition types and values of a creator's result.
#[verifier::rlimit(40)]
pub fn creator_condition_values(f: &CreatorResultFields) -> (r: Vec<(&'static str, String)>)
    ensures pair_views(r@) == creator_condition_list(*f),
{
    let ghost want = creator_condition_list(*f);
    let mut v: Vec<(&'static str, String)> = Vec::new();
    v.push(("market", clean_condition_value(some_copy(&f.market))));
    v.push(("pattern_family_key", clean_condition_value(copy_text(&f.pattern_family_key))));
    v.push(("symbol", clean_condition_value(some_copy(&f.symbol))));
    v.push(("root_symbol", clean_condition_value(some_copy(&f.root_symbol))));
    v.push(("exchange", clean_condition_value(some_copy(&f.exchange_name))));
    proof { assert(pair_views(v@) =~= want.take(5)); }
    v.push(("source_timeframe", clean_condition_value(some_copy(&f.source_timeframe))));
    v.push(("trade_direction", clean_condition_value(copy_text(&f.trade_direction))));
    v.push(("exit_reason", clean_condition_value(some_copy(&f.exit_reason))));
    v.push(("confirm_year", clean_condition_value(Some(confirm_year_value(Some(f.d_confirm))))));
    v.push(("confirm_session", clean_condition_value(Some(confirm_session_value(Some(f.d_confirm))))));
    proof { assert(pair_views(v@) =~= want); }
    v
}

/// How many results were evaluated, and how many of them passed, failed or
/// found no entry.
#[derive(Clone, Copy, Debug, PartialEq, Eq)]
pub struct OutcomeCounts {
    pub eval_count: i64,
    pub pass_count: i64,
    pub fail_count: i64,
    pub no_entry_count: i64,
}

impl OutcomeCounts {
    /// No results yet.
    pub fn new() -> (r: OutcomeCounts)
        ensures r == (OutcomeCounts { eval_count: 0, pass_count: 0, fail_count: 0, no_entry_count: 0 }),
    {
        OutcomeCounts { eval_count: 0, pass_count: 0, fail_count: 0, no_entry_count: 0 }
    }

    /// Counts one more result with the given outcome: `pass`, `fail` and
    /// `no_entry` are counted on their own; every result counts as evaluated.
    pub fn record(&mut self, outcome: &str)
        requires
            old(self).eval_count < i64::MAX,
            old(self).pass_count < i64::MAX,
            old(self).fail_count < i64::MAX,
            old(self).no_entry_count < i64::MAX,
        ensures
            final(self).eval_count == old(self).eval_count + 1,
            final(self).pass_count == old(self).pass_count + (if outcome@ == "pass"@ { 1int } else { 0 }),
            final(self).fail_count == old(self).fail_count + (if outcome@ == "fail"@ { 1int } else { 0 }),
            final(self).no_entry_count == old(self).no_entry_count + (if outcome@ == "no_entry"@ { 1int } else { 0 }),
    {
        proof {
            reveal_strlit("pass");
            reveal_strlit("fail");
            reveal_strlit("no_entry");
            assert("pass"@[0] != "fail"@[0]);
        }
        self.eval_count = self.eval_count + 1;
        let o = chars_of(outcome);
        if eq_lit(&o, "pass") {
            self.pass_count = self.pass_count + 1;
        } else if eq_lit(&o, "fail") {
            self.fail_count = self.fail_count + 1;
        } else if eq_lit(&o, "no_entry") {
            self.no_entry_count = self.no_entry_count + 1;
        }
    }
}

/// The counts after one more result with the given outcome.
pub open spec fn recorded(c: OutcomeCounts, outcome: Seq<char>) -> OutcomeCounts {
    OutcomeCounts {
        eval_count: (c.eval_count + 1) as i64,
        pass_count: (c.pass_count + if outcome == "pass"@ { 1int } else { 0 }) as i64,
        fail_count: (c.fail_count + if outcome == "fail"@ { 1int } else { 0 }) as i64,
        no_entry_count: (c.no_entry_count + if outcome == "no_entry"@ { 1int } else { 0 }) as i64,
    }
}

/// Whether one more result could not be counted in `i64`.
pub open spec fn counts_full(c: OutcomeCounts) -> bool {
    c.eval_count == i64::MAX || c.pass_count == i64::MAX || c.fail_count == i64::MAX || c.no_entry_count == i64::MAX
}

/// The outcome counts of one template under one condition; the key is the
/// template uid, the condition type and the condition value.
pub struct ConditionTotals {
    pub key: Vec<String>,
    pub counts: OutcomeCounts,
}

/// The totals are in strict key order.
pub open spec fn conditions_sorted(t: Seq<ConditionTotals>) -> bool {
    forall|i: int, j: int| 0 <= i < j < t.len() ==> parts_lt(key_view(t[i].key@), key_view(t[j].key@))
}

/// Whether an entry of the totals has key `k`.
pub open spec fn has_condition(t: Seq<ConditionTotals>, k: Seq<Seq<char>>) -> bool {
    exists|i: int| 0 <= i < t.len() && #[trigger] key_view(t[i].key@) == k
}

/// Counts one result of a template under a condition, keeping the totals in
/// key order as a `BTreeMap` would: returns where the condition's totals
/// stand and whether they are new; `None`, with nothing changed, where a
/// count of the condition is already at `i64::MAX`.
#[verifier::rlimit(40)]
pub fn record_condition(
    totals: &mut Vec<ConditionTotals>,
    template_uid: &str,
    condition_type: &str,
    condition_value: String,
    outcome: &str,
) -> (r: Option<(usize, bool)>)
    requires conditions_sorted(old(totals)@),
    ensures
        conditions_sorted(final(totals)@),
        ({
            let k = seq![template_uid@, condition_type@, condition_value@];
            match r {
                None => {
                    &&& final(totals)@ == old(totals)@
                    &&& exists|i: int| 0 <= i < old(totals)@.len() && #[trigger] key_view(old(totals)@[i].key@) == k
                        && counts_full(old(totals)@[i].counts)
                },
                Some((idx, false)) => {
                    &&& idx < old(totals)@.len()
                    &&& final(totals)@.len() == old(totals)@.len()
                    &&& key_view(old(totals)@[idx as int].key@) == k
                    &&& !counts_full(old(totals)@[idx as int].counts)
                    &&& key_view(final(totals)@[idx as int].key@) == k
                    &&& final(totals)@[idx as int].counts == recorded(old(totals)@[idx as int].counts, outcome@)
                    &&& forall|i: int| 0 <= i < old(totals)@.len() && i != idx ==> #[trigger] final(totals)@[i] == old(totals)@[i]
                },
                Some((idx, true)) => {
                    &&& !has_condition(old(totals)@, k)
                    &&& idx <= old(totals)@.len()
                    &&& final(totals)@.len() == old(totals)@.len() + 1
                    &&& key_view(final(totals)@[idx as int].key@) == k
                    &&& final(totals)@[idx as int].counts == recorded(OutcomeCounts { eval_count: 0, pass_count: 0, fail_count: 0, no_entry_count: 0 }, outcome@)
                    &&& forall|i: int| 0 <= i < idx ==> #[trigger] final(totals)@[i] == old(totals)@[i]
                    &&& forall|i: int| idx < i < final(totals)@.len() ==> #[trigger] final(totals)@[i] == old(totals)@[i - 1]
                },
            }
        }),
{
    let ghost before = totals@;
    let mut key: Vec<String> = Vec::new();
    key.push(owned(template_uid));
    key.push(owned(condition_type));
    key.push(condition_value);
    let ghost k = key_view(key@);
    proof {
        assert(k =~= seq![template_uid@, condition_type@, key@[2]@]);
    }
    let mut p: usize = 0;
    while p < totals.len() && key_before(&totals[p].key, &key)
        invariant
            p <= totals@.len(),
            totals@ == before,
            k == key_view(key@),
            forall|q: int| 0 <= q < p ==> parts_lt(key_view((#[trigger] totals@[q]).key@), k),
        decreases totals.len() - p,
    {
        p = p + 1;
    }
    if p < totals.len() && key_eq(&totals[p].key, &key) {
        let c = totals[p].counts;
        if c.eval_count == 9223372036854775807 || c.pass_count == 9223372036854775807
            || c.fail_count == 9223372036854775807 || c.no_entry_count == 9223372036854775807 {
            return None;
        }
        let mut counts = c;
        counts.record(outcome);
        let updated = ConditionTotals { key, counts };
        totals.set(p, updated);
        proof {
            assert forall|a: int, b: int| 0 <= a < b < totals@.len() implies parts_lt(key_view(totals@[a].key@), key_view(totals@[b].key@)) by {
                assert(key_view(totals@[a].key@) == key_view(before[a].key@));
                assert(key_view(totals@[b].key@) == key_view(before[b].key@));
            }
        }
        Some((p, false))
    } else {
        proof {
            if p < before.len() {
                lemma_parts_total(key_view(before[p as int].key@), k);
            }
            assert forall|i: int| 0 <= i < before.len() implies key_view(#[trigger] before[i].key@) != k by {
                if i < p {
                    lemma_parts_irreflexive(k);
                } else if key_view(before[i].key@) == k && i > p {
                    assert(parts_lt(key_view(before[p as int].key@), key_view(before[i].key@)));
                    lemma_parts_asymmetric(k, key_view(before[p as int].key@));
                }
            }
        }
        let mut counts = OutcomeCounts::new();
        counts.record(outcome);
        totals.insert(p, ConditionTotals { key, counts });
        proof {
            assert forall|a: int, b: int| 0 <= a < b < totals@.len() implies parts_lt(key_view(totals@[a].key@), key_view(totals@[b].key@)) by {
                if b < p {
                } else if b == p {
                } else if a < p {
                    assert(totals@[b] == before[b - 1]);
                    if b - 1 > p {
                        assert(parts_lt(key_view(before[p as int].key@), key_view(before[b - 1].key@)));
                        lemma_parts_transitive(k, key_view(before[p as int].key@), key_view(before[b - 1].key@));
                    }
                    lemma_parts_transitive(key_view(before[a].key@), k, key_view(before[b - 1].key@));
                } else if a == p {
                    assert(totals@[b] == before[b - 1]);
                    if b - 1 > p {
                        assert(parts_lt(key_view(before[p as int].key@), key_view(before[b - 1].key@)));
                        lemma_parts_transitive(k, key_view(before[p as int].key@), key_view(before[b - 1].key@));
                    }
                } else {
                    assert(totals@[a] == before[a - 1]);
                    assert(totals@[b] == before[b - 1]);
                }
            }
        }
        Some((p, true))
    }
}

} // verus!
