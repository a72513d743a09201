//! Storage summaries of the pattern setups: the grouping queries, the root a
//! setup group is filed under, and the per-key totals kept in key order.
use vstd::prelude::*;
use crate::options::view_opt;
use crate::order::{lemma_text_asymmetric, lemma_text_irreflexive, lemma_text_total, lemma_text_transitive, text_before, text_lt};
use crate::text::{chars_of, has_text, lemma_has_text_end, lemma_has_text_grow, push_lit, string_of, trim, trim_chars};
use crate::symbols::{futures_storage_root, storage_root_text};

verus! {

/// The texts of a key.
pub open spec fn key_view(k: Seq<String>) -> Seq<Seq<char>> {
    k.map_values(|s: String| s@)
}

/// Keys ordered part by part, each part as text: the order of tuples of
/// `String`s.
pub open spec fn parts_lt(a: Seq<Seq<char>>, b: Seq<Seq<char>>) -> bool
    decreases a.len(),
{
    if a.len() == 0 {
        b.len() > 0
    } else if b.len() == 0 {
        false
    } else if text_lt(a[0], b[0]) {
        true
    } else if a[0] == b[0] {
        parts_lt(a.drop_first(), b.drop_first())
    } else {
        false
    }
}

/// No key sorts before itself.
pub proof fn lemma_parts_irreflexive(a: Seq<Seq<char>>)
    ensures !parts_lt(a, a),
    decreases a.len(),
{
    if a.len() > 0 {
        lemma_text_irreflexive(a[0]);
        lemma_parts_irreflexive(a.drop_first());
    }
}

/// Of two different keys one sorts before the other.
pub proof fn lemma_parts_total(a: Seq<Seq<char>>, b: Seq<Seq<char>>)
    ensures a == b || parts_lt(a, b) || parts_lt(b, a),
    decreases a.len(),
{
    if a.len() > 0 && b.len() > 0 {
        lemma_text_total(a[0], b[0]);
        if a[0] == b[0] {
            lemma_parts_total(a.drop_first(), b.drop_first());
            if a.drop_first() == b.drop_first() {
                assert(a =~= seq![a[0]] + a.drop_first());
                assert(b =~= seq![b[0]] + b.drop_first());
            }
        }
    } else if a.len() == 0 && b.len() == 0 {
        assert(a =~= b);
    }
}

/// Two keys do not each sort before the other.
pub proof fn lemma_parts_asymmetric(a: Seq<Seq<char>>, b: Seq<Seq<char>>)
    ensures !(parts_lt(a, b) && parts_lt(b, a)),
    decreases a.len(),
{
    if a.len() > 0 && b.len() > 0 {
        lemma_text_asymmetric(a[0], b[0]);
        lemma_text_irreflexive(a[0]);
        if a[0] == b[0] {
            lemma_parts_asymmetric(a.drop_first(), b.drop_first());
        }
    }
}

/// Key order is transitive.
pub proof fn lemma_parts_transitive(a: Seq<Seq<char>>, b: Seq<Seq<char>>, c: Seq<Seq<char>>)
    requires parts_lt(a, b), parts_lt(b, c),
    ensures parts_lt(a, c),
    decreases a.len(),
{
    if a.len() > 0 && b.len() > 0 && c.len() > 0 {
        if text_lt(a[0], b[0]) && text_lt(b[0], c[0]) {
            lemma_text_transitive(a[0], b[0], c[0]);
        } else if a[0] == b[0] && b[0] == c[0] {
            lemma_parts_transitive(a.drop_first(), b.drop_first(), c.drop_first());
        }
    }
}

/// Whether key `a` sorts strictly before key `b`.
pub fn key_before(a: &Vec<String>, b: &Vec<String>) -> (r: bool)
    ensures r == parts_lt(key_view(a@), key_view(b@)),
{
    let mut i: usize = 0;
    proof {
        assert(key_view(a@).skip(0) =~= key_view(a@));
        assert(key_view(b@).skip(0) =~= key_view(b@));
    }
    while i < a.len() && i < b.len()
        invariant
            i <= a.len(),
            i <= b.len(),
            parts_lt(key_view(a@), key_view(b@)) == parts_lt(key_view(a@).skip(i as int), key_view(b@).skip(i as int)),
        decreases a.len() - i,
    {
        let x = chars_of(a[i].as_str());
        let y = chars_of(b[i].as_str());
        if text_before(&x, &y) {
            return true;
        }
        if !crate::text::chars_eq(&x, &y) {
            return false;
        }
        proof {
            let p = key_view(a@).skip(i as int);
            let q = key_view(b@).skip(i as int);
            assert(p[0] == a@[i as int]@);
            assert(q[0] == b@[i as int]@);
            assert(p.drop_first() =~= key_view(a@).skip(i + 1));
            assert(q.drop_first() =~= key_view(b@).skip(i + 1));
        }
        i = i + 1;
    }
    i == a.len() && i < b.len()
}

/// Whether two keys are equal part by part.
pub fn key_eq(a: &Vec<String>, b: &Vec<String>) -> (r: bool)
    ensures r == (key_view(a@) == key_view(b@)),
{
    if a.len() != b.len() {
        proof { assert(key_view(a@).len() != key_view(b@).len()); }
        return false;
    }
    let mut i: usize = 0;
    while i < a.len()
        invariant
            i <= a.len(),
            a.len() == b.len(),
            forall|j: int| 0 <= j < i ==> a@[j]@ == b@[j]@,
        decreases a.len() - i,
    {
        if !crate::text::str_eq(a[i].as_str(), b[i].as_str()) {
            proof { assert(key_view(a@)[i as int] != key_view(b@)[i as int]); }
            return false;
        }
        i = i + 1;
    }
    proof { assert(key_view(a@) =~= key_view(b@)); }
    true
}

fn copy_key(k: &Vec<String>) -> (r: Vec<String>)
    ensures key_view(r@) == key_view(k@),
{
    let mut r: Vec<String> = Vec::new();
    let mut i: usize = 0;
    while i < k.len()
        invariant
            i <= k.len(),
            r@.len() == i,
            forall|j: int| 0 <= j < i ==> r@[j]@ == k@[j]@,
        decreases k.len() - i,
    {
        r.push(k[i].clone());
        i = i + 1;
    }
    proof { assert(key_view(r@) =~= key_view(k@)); }
    r
}

/// One group of setups as the database counted it: its key, how many setups
/// it holds, and its first and last D dates.
pub struct SummaryRow {
    pub key: Vec<String>,
    pub setup_count: i64,
    pub first_d_date: Option<String>,
    pub last_d_date: Option<String>,
}

/// The totals of one key: how many groups were merged into it, their
/// setups, and the earliest first and latest last D date among them.
pub struct SummaryTotals {
    pub key: Vec<String>,
    pub group_count: i64,
    pub setup_count: i64,
    pub first_d_date: Option<String>,
    pub last_d_date: Option<String>,
}

/// The earlier of a known date and a new one, as text; an absent new date
/// changes nothing.
pub open spec fn first_of(current: Option<Seq<char>>, date: Option<Seq<char>>) -> Option<Seq<char>> {
    match date {
        Some(d) => match current {
            Some(c) => if text_lt(d, c) { Some(d) } else { Some(c) },
            None => Some(d),
        },
        None => current,
    }
}

/// The later of a known date and a new one, as text; an absent new date
/// changes nothing.
pub open spec fn last_of(current: Option<Seq<char>>, date: Option<Seq<char>>) -> Option<Seq<char>> {
    match date {
        Some(d) => match current {
            Some(c) => if text_lt(c, d) { Some(d) } else { Some(c) },
            None => Some(d),
        },
        None => current,
    }
}

/// How many of the first `n` groups have key `k`.
pub open spec fn groups_with(rows: Seq<SummaryRow>, n: int, k: Seq<Seq<char>>) -> int
    decreases n,
{
    if n <= 0 { 0 } else { groups_with(rows, n - 1, k) + if key_view(rows[n - 1].key@) == k { 1int } else { 0 } }
}

/// The setups of the first `n` groups that have key `k`.
pub open spec fn setups_with(rows: Seq<SummaryRow>, n: int, k: Seq<Seq<char>>) -> int
    decreases n,
{
    if n <= 0 { 0 } else { setups_with(rows, n - 1, k) + if key_view(rows[n - 1].key@) == k { rows[n - 1].setup_count as int } else { 0 } }
}

/// The earliest first D date among the first `n` groups with key `k`.
pub open spec fn earliest_with(rows: Seq<SummaryRow>, n: int, k: Seq<Seq<char>>) -> Option<Seq<char>>
    decreases n,
{
    if n <= 0 {
        None
    } else if key_view(rows[n - 1].key@) == k {
        first_of(earliest_with(rows, n - 1, k), view_opt(rows[n - 1].first_d_date))
    } else {
        earliest_with(rows, n - 1, k)
    }
}

/// The latest last D date among the first `n` groups with key `k`.
pub open spec fn latest_with(rows: Seq<SummaryRow>, n: int, k: Seq<Seq<char>>) -> Option<Seq<char>>
    decreases n,
{
    if n <= 0 {
        None
    } else if key_view(rows[n - 1].key@) == k {
        last_of(latest_with(rows, n - 1, k), view_opt(rows[n - 1].last_d_date))
    } else {
        latest_with(rows, n - 1, k)
    }
}

/// Every running setup total of a key stays within `i64`, and the groups
/// can be counted in one.
pub open spec fn summary_fits(rows: Seq<SummaryRow>) -> bool {
    &&& rows.len() <= i64::MAX
    &&& forall|n: int| 1 <= n <= rows.len() ==> i64::MIN <= #[trigger] setups_with(rows, n, key_view(rows[n - 1].key@)) <= i64::MAX
}

/// The totals are in strict key order.
pub open spec fn totals_sorted(t: Seq<SummaryTotals>) -> bool {
    forall|i: int, j: int| 0 <= i < j < t.len() ==> parts_lt(key_view(t[i].key@), key_view(t[j].key@))
}

/// Totals entry `t` is what the first `n` groups make of its key.
pub open spec fn totals_match(rows: Seq<SummaryRow>, n: int, t: SummaryTotals) -> bool {
    let k = key_view(t.key@);
    &&& t.group_count == groups_with(rows, n, k)
    &&& t.group_count > 0
    &&& t.setup_count == setups_with(rows, n, k)
    &&& view_opt(t.first_d_date) == earliest_with(rows, n, k)
    &&& view_opt(t.last_d_date) == latest_with(rows, n, k)
}

fn first_date_of(current: Option<String>, date: &Option<String>) -> (r: Option<String>)
    ensures view_opt(r) == first_of(view_opt(current), view_opt(*date)),
{
    match date {
        Some(d) => match current {
            Some(c) => if text_before(&chars_of(d.as_str()), &chars_of(c.as_str())) { Some(d.clone()) } else { Some(c) },
            None => Some(d.clone()),
        },
        None => current,
    }
}

fn last_date_of(current: Option<String>, date: &Option<String>) -> (r: Option<String>)
    ensures view_opt(r) == last_of(view_opt(current), view_opt(*date)),
{
    match date {
        Some(d) => match current {
            Some(c) => if text_before(&chars_of(c.as_str()), &chars_of(d.as_str())) { Some(d.clone()) } else { Some(c) },
            None => Some(d.clone()),
        },
        None => current,
    }
}

fn copy_date(date: &Option<String>) -> (r: Option<String>)
    ensures view_opt(r) == view_opt(*date),
{
    match date {
        Some(d) => Some(d.clone()),
        None => None,
    }
}

/// Whether the groups can be totalled without overflow: every running setup
/// total of a key fits in `i64`.
pub fn summary_rows_fit(rows: &Vec<SummaryRow>) -> (r: bool)
    ensures r == summary_fits(rows@),
{
    if rows.len() as u64 > 9223372036854775807u64 {
        return false;
    }
    let mut n: usize = 0;
    while n < rows.len()
        invariant
            n <= rows@.len() <= i64::MAX,
            forall|m: int| 1 <= m <= n ==> i64::MIN <= #[trigger] setups_with(rows@, m, key_view(rows@[m - 1].key@)) <= i64::MAX,
        decreases rows.len() - n,
    {
        let ghost k = key_view(rows@[n as int].key@);
        let mut total: i128 = 0;
        let mut j: usize = 0;
        while j <= n
            invariant
                j <= n + 1,
                n < rows.len(),
                n < rows@.len() <= i64::MAX,
                k == key_view(rows@[n as int].key@),
                total == setups_with(rows@, j as int, k),
                -(j as int) * 9223372036854775808 <= total <= (j as int) * 9223372036854775807,
            decreases n + 1 - j,
        {
            if key_eq(&rows[j].key, &rows[n].key) {
                total = total + rows[j].setup_count as i128;
            }
            j = j + 1;
        }
        if total < -9223372036854775808i128 || total > 9223372036854775807i128 {
            return false;
        }
        n = n + 1;
    }
    true
}

/// The sum of the numbers.
pub open spec fn int_sum(s: Seq<int>) -> int
    decreases s.len(),
{
    if s.len() == 0 { 0 } else { int_sum(s.drop_last()) + s.last() }
}

/// Replacing one number changes the sum by the difference.
pub proof fn lemma_sum_update(s: Seq<int>, i: int, x: int)
    requires 0 <= i < s.len(),
    ensures int_sum(s.update(i, x)) == int_sum(s) - s[i] + x,
    decreases s.len(),
{
    let u = s.update(i, x);
    if i == s.len() - 1 {
        assert(u.drop_last() =~= s.drop_last());
    } else {
        assert(u.drop_last() =~= s.drop_last().update(i, x));
        lemma_sum_update(s.drop_last(), i, x);
    }
}

/// Inserting a number adds it to the sum.
pub proof fn lemma_sum_insert(s: Seq<int>, i: int, x: int)
    requires 0 <= i <= s.len(),
    ensures int_sum(s.insert(i, x)) == int_sum(s) + x,
    decreases s.len(),
{
    let u = s.insert(i, x);
    if i == s.len() {
        assert(u.drop_last() =~= s);
    } else {
        assert(u.drop_last() =~= s.drop_last().insert(i, x));
        lemma_sum_insert(s.drop_last(), i, x);
    }
}

/// The setups of each totals entry.
pub open spec fn setups_of(t: Seq<SummaryTotals>) -> Seq<int> {
    t.map_values(|x: SummaryTotals| x.setup_count as int)
}

/// The groups of each totals entry.
pub open spec fn groups_of(t: Seq<SummaryTotals>) -> Seq<int> {
    t.map_values(|x: SummaryTotals| x.group_count as int)
}

/// The setups of the first `n` groups, whatever their key.
pub open spec fn all_setups(rows: Seq<SummaryRow>, n: int) -> int
    decreases n,
{
    if n <= 0 { 0 } else { all_setups(rows, n - 1) + rows[n - 1].setup_count }
}

/// Totals the groups by key, in key order, as a `BTreeMap` keyed by the key
/// would hold them: each key once, with the number of its groups, their
/// setups, and the earliest first and latest last D date among them.
#[verifier::rlimit(60)]
pub fn summarize_rows(rows: &Vec<SummaryRow>) -> (r: Vec<SummaryTotals>)
    requires summary_fits(rows@),
    ensures
        totals_sorted(r@),
        forall|i: int| 0 <= i < r@.len() ==> totals_match(rows@, rows@.len() as int, #[trigger] r@[i]),
        forall|j: int| 0 <= j < rows@.len() ==> exists|i: int| 0 <= i < r@.len()
            && #[trigger] key_view(r@[i].key@) == key_view((#[trigger] rows@[j]).key@),
        int_sum(groups_of(r@)) == rows@.len(),
        int_sum(setups_of(r@)) == all_setups(rows@, rows@.len() as int),
{
    let mut out: Vec<SummaryTotals> = Vec::new();
    proof {
        assert(groups_of(out@) =~= Seq::<int>::empty());
        assert(setups_of(out@) =~= Seq::<int>::empty());
    }
    let mut n: usize = 0;
    while n < rows.len()
        invariant
            n <= rows@.len(),
            summary_fits(rows@),
            totals_sorted(out@),
            forall|i: int| 0 <= i < out@.len() ==> totals_match(rows@, n as int, #[trigger] out@[i]),
            forall|j: int| 0 <= j < n ==> exists|i: int| 0 <= i < out@.len()
                && #[trigger] key_view(out@[i].key@) == key_view((#[trigger] rows@[j]).key@),
            forall|k: Seq<Seq<char>>| groups_with(rows@, n as int, k) > 0 ==> exists|i: int| 0 <= i < out@.len()
                && #[trigger] key_view(out@[i].key@) == k,
            int_sum(groups_of(out@)) == n,
            int_sum(setups_of(out@)) == all_setups(rows@, n as int),
        decreases rows.len() - n,
    {
        let row = &rows[n];
        let ghost k = key_view(row.key@);
        let ghost before = out@;
        let ghost n1: int = n as int + 1;
        let mut p: usize = 0;
        while p < out.len() && key_before(&out[p].key, &row.key)
            invariant
                p <= out@.len(),
                k == key_view(row.key@),
                forall|q: int| 0 <= q < p ==> parts_lt(key_view((#[trigger] out@[q]).key@), k),
            decreases out.len() - p,
        {
            p = p + 1;
        }
        proof {
            assert(setups_with(rows@, n as int + 1, k) == setups_with(rows@, n as int, k) + row.setup_count);
            assert(i64::MIN <= setups_with(rows@, n as int + 1, key_view(rows@[n as int].key@)) <= i64::MAX);
        }
        if p < out.len() && key_eq(&out[p].key, &row.key) {
            let cur = &out[p];
            proof {
                assert(groups_with(rows@, n as int, k) <= n) by { lemma_groups_bound(rows@, n as int, k); }
                assert(totals_match(rows@, n as int, before[p as int]));
            }
            let updated = SummaryTotals {
                key: copy_key(&cur.key),
                group_count: cur.group_count + 1,
                setup_count: cur.setup_count + row.setup_count,
                first_d_date: first_date_of(copy_date(&cur.first_d_date), &row.first_d_date),
                last_d_date: last_date_of(copy_date(&cur.last_d_date), &row.last_d_date),
            };
            out.set(p, updated);
            proof {
                assert(groups_of(out@) =~= groups_of(before).update(p as int, out@[p as int].group_count as int));
                assert(setups_of(out@) =~= setups_of(before).update(p as int, out@[p as int].setup_count as int));
                lemma_sum_update(groups_of(before), p as int, out@[p as int].group_count as int);
                lemma_sum_update(setups_of(before), p as int, out@[p as int].setup_count as int);
                assert forall|i: int| 0 <= i < out@.len() implies totals_match(rows@, n as int + 1, #[trigger] out@[i]) by {
                    if i != p as int {
                        assert(out@[i] == before[i]);
                        if key_view(before[i].key@) == k {
                            if i < p { lemma_parts_irreflexive(k); } else {
                                assert(parts_lt(key_view(before[p as int].key@), key_view(before[i].key@)));
                                lemma_parts_irreflexive(k);
                            }
                        }
                    }
                }
                assert(totals_sorted(out@)) by {
                    assert forall|a: int, b: int| 0 <= a < b < out@.len() implies parts_lt(key_view(out@[a].key@), key_view(out@[b].key@)) by {
                        assert(key_view(out@[a].key@) == key_view(before[a].key@));
                        assert(key_view(out@[b].key@) == key_view(before[b].key@));
                    }
                }
                assert forall|j: int| 0 <= j < n + 1 implies exists|i: int| 0 <= i < out@.len()
                    && #[trigger] key_view(out@[i].key@) == key_view((#[trigger] rows@[j]).key@) by {
                    if j < n {
                        let i = choose|i: int| 0 <= i < before.len() && #[trigger] key_view(before[i].key@) == key_view(rows@[j].key@);
                        assert(key_view(out@[i].key@) == key_view(before[i].key@));
                    } else {
                        assert(key_view(out@[p as int].key@) == k);
                    }
                }
                assert forall|kk: Seq<Seq<char>>| #[trigger] groups_with(rows@, n1, kk) > 0 implies exists|i: int| 0 <= i < out@.len()
                    && #[trigger] key_view(out@[i].key@) == kk by {
                    if kk == k {
                        assert(key_view(out@[p as int].key@) == kk);
                    } else {
                        assert(groups_with(rows@, n as int, kk) > 0);
                        let i = choose|i: int| 0 <= i < before.len() && #[trigger] key_view(before[i].key@) == kk;
                        assert(key_view(out@[i].key@) == key_view(before[i].key@));
                    }
                }
            }
        } else {
            proof {
                if p < before.len() {
                    lemma_parts_total(key_view(before[p as int].key@), k);
                    assert(parts_lt(k, key_view(before[p as int].key@)));
                }
                assert forall|i: int| 0 <= i < before.len() implies key_view(#[trigger] before[i].key@) != k by {
                    if i < p {
                        lemma_parts_irreflexive(k);
                    } else if key_view(before[i].key@) == k {
                        if i > p {
                            assert(parts_lt(key_view(before[p as int].key@), key_view(before[i].key@)));
                            lemma_parts_asymmetric(k, key_view(before[p as int].key@));
                        }
                    }
                }
                if groups_with(rows@, n as int, k) > 0 {
                    let i = choose|i: int| 0 <= i < before.len() && #[trigger] key_view(before[i].key@) == k;
                    assert(false);
                }
                lemma_groups_bound(rows@, n as int, k);
                lemma_groups_zero(rows@, n as int, k);
            }
            let fresh = SummaryTotals {
                key: copy_key(&row.key),
                group_count: 1,
                setup_count: row.setup_count,
                first_d_date: copy_date(&row.first_d_date),
                last_d_date: copy_date(&row.last_d_date),
            };
            out.insert(p, fresh);
            proof {
                assert(out@ == before.insert(p as int, out@[p as int]));
                assert(groups_of(out@) =~= groups_of(before).insert(p as int, 1));
                assert(setups_of(out@) =~= setups_of(before).insert(p as int, row.setup_count as int));
                lemma_sum_insert(groups_of(before), p as int, 1);
                lemma_sum_insert(setups_of(before), p as int, row.setup_count as int);
                assert forall|i: int| 0 <= i < out@.len() implies totals_match(rows@, n as int + 1, #[trigger] out@[i]) by {
                    if i < p {
                        assert(out@[i] == before[i]);
                        assert(key_view(before[i].key@) != k);
                    } else if i > p {
                        assert(out@[i] == before[i - 1]);
                        assert(key_view(before[i - 1].key@) != k);
                    } else {
                        assert(key_view(out@[i].key@) == k);
                        assert(groups_with(rows@, n as int + 1, k) == 1);
                        assert(setups_with(rows@, n as int + 1, k) == row.setup_count);
                        assert(earliest_with(rows@, n as int + 1, k) == view_opt(row.first_d_date));
                        assert(latest_with(rows@, n as int + 1, k) == view_opt(row.last_d_date));
                    }
                }
                assert(totals_sorted(out@)) by {
                    assert forall|a: int, b: int| 0 <= a < b < out@.len() implies parts_lt(key_view(out@[a].key@), key_view(out@[b].key@)) by {
                        if b < p {
                        } else if b == p {
                        } else if a < p {
                            assert(out@[b] == before[b - 1]);
                            if b - 1 > p {
                                assert(parts_lt(key_view(before[p as int].key@), key_view(before[b - 1].key@)));
                                lemma_parts_transitive(k, key_view(before[p as int].key@), key_view(before[b - 1].key@));
                            }
                            lemma_parts_transitive(key_view(before[a].key@), k, key_view(before[b - 1].key@));
                        } else if a == p {
                            assert(out@[b] == before[b - 1]);
                            if b - 1 > p {
                                assert(parts_lt(key_view(before[p as int].key@), key_view(before[b - 1].key@)));
                                lemma_parts_transitive(k, key_view(before[p as int].key@), key_view(before[b - 1].key@));
                            }
                        } else {
                            assert(out@[a] == before[a - 1]);
                            assert(out@[b] == before[b - 1]);
                        }
                    }
                }
                assert forall|j: int| 0 <= j < n + 1 implies exists|i: int| 0 <= i < out@.len()
                    && #[trigger] key_view(out@[i].key@) == key_view((#[trigger] rows@[j]).key@) by {
                    if j < n {
                        let i = choose|i: int| 0 <= i < before.len() && #[trigger] key_view(before[i].key@) == key_view(rows@[j].key@);
                        if i < p { assert(out@[i] == before[i]); } else { assert(out@[i + 1] == before[i]); }
                    } else {
                        assert(key_view(out@[p as int].key@) == k);
                    }
                }
                assert forall|kk: Seq<Seq<char>>| #[trigger] groups_with(rows@, n1, kk) > 0 implies exists|i: int| 0 <= i < out@.len()
                    && #[trigger] key_view(out@[i].key@) == kk by {
                    if kk == k {
                        assert(key_view(out@[p as int].key@) == kk);
                    } else {
                        assert(groups_with(rows@, n as int, kk) > 0);
                        let i = choose|i: int| 0 <= i < before.len() && #[trigger] key_view(before[i].key@) == kk;
                        if i < p { assert(out@[i] == before[i]); } else { assert(out@[i + 1] == before[i]); }
                    }
                }
            }
        }
        n = n + 1;
    }
    out
}

proof fn lemma_groups_bound(rows: Seq<SummaryRow>, n: int, k: Seq<Seq<char>>)
    requires 0 <= n,
    ensures 0 <= groups_with(rows, n, k) <= n,
    decreases n,
{
    if n > 0 {
        lemma_groups_bound(rows, n - 1, k);
    }
}

proof fn lemma_groups_zero(rows: Seq<SummaryRow>, n: int, k: Seq<Seq<char>>)
    requires 0 <= n <= rows.len(), groups_with(rows, n, k) == 0,
    ensures
        setups_with(rows, n, k) == 0,
        earliest_with(rows, n, k) is None,
        latest_with(rows, n, k) is None,
    decreases n,
{
    if n > 0 {
        lemma_groups_bound(rows, n - 1, k);
        lemma_groups_zero(rows, n - 1, k);
    }
}

/// The root symbol column of a setup table, blank where the table has none.
pub open spec fn root_projection(has_root_symbol: bool) -> Seq<char> {
    if has_root_symbol { "COALESCE(NULLIF(root_symbol, ''), '')"@ } else { "''"@ }
}

/// The contract symbol column of a setup table, the symbol where it has none.
pub open spec fn contract_projection(has_contract_symbol: bool) -> Seq<char> {
    if has_contract_symbol { "COALESCE(NULLIF(contract_symbol, ''), symbol)"@ } else { "symbol"@ }
}

/// The source timeframe column of a setup table, `unknown` where it has none.
pub open spec fn timeframe_projection(has_source_timeframe: bool) -> Seq<char> {
    if has_source_timeframe { "COALESCE(NULLIF(source_timeframe, ''), 'unknown')"@ } else { "'unknown'"@ }
}

fn push_root_projection(v: &mut Vec<char>, has_root_symbol: bool)
    ensures final(v)@ == old(v)@ + root_projection(has_root_symbol),
{
    if has_root_symbol { push_lit(v, "COALESCE(NULLIF(root_symbol, ''), '')") } else { push_lit(v, "''") }
}

fn push_contract_projection(v: &mut Vec<char>, has_contract_symbol: bool)
    ensures final(v)@ == old(v)@ + contract_projection(has_contract_symbol),
{
    if has_contract_symbol { push_lit(v, "COALESCE(NULLIF(contract_symbol, ''), symbol)") } else { push_lit(v, "symbol") }
}

fn push_timeframe_projection(v: &mut Vec<char>, has_source_timeframe: bool)
    ensures final(v)@ == old(v)@ + timeframe_projection(has_source_timeframe),
{
    if has_source_timeframe { push_lit(v, "COALESCE(NULLIF(source_timeframe, ''), 'unknown')") } else { push_lit(v, "'unknown'") }
}

/// The setup groups of a table by stored root and contract symbol.
pub open spec fn setup_root_sql_text(table: Seq<char>, has_root_symbol: bool, has_contract_symbol: bool) -> Seq<char> {
    "SELECT "@ + root_projection(has_root_symbol) + " AS stored_root_symbol, "@
        + contract_projection(has_contract_symbol) + " AS contract_symbol, "@
        + "COUNT(*) AS setup_count"@ + ", "@ + "CAST(MIN(d_date) AS CHAR) AS first_d_date"@ + ", "@
        + "CAST(MAX(d_date) AS CHAR) AS last_d_date"@
        + (" FROM "@ + table + " GROUP BY "@ + root_projection(has_root_symbol) + ", "@ + contract_projection(has_contract_symbol))
        + " ORDER BY setup_count DESC, contract_symbol ASC"@
}

/// The query of a setup table's groups by stored root and contract symbol.
pub fn setup_root_sql(table: &str, has_root_symbol: bool, has_contract_symbol: bool) -> (r: String)
    ensures r@ == setup_root_sql_text(table@, has_root_symbol, has_contract_symbol),
{
    let mut v = chars_of("SELECT ");
    push_root_projection(&mut v, has_root_symbol);
    push_lit(&mut v, " AS stored_root_symbol, ");
    push_contract_projection(&mut v, has_contract_symbol);
    push_lit(&mut v, " AS contract_symbol, ");
    push_lit(&mut v, "COUNT(*) AS setup_count");
    push_lit(&mut v, ", ");
    push_lit(&mut v, "CAST(MIN(d_date) AS CHAR) AS first_d_date");
    push_lit(&mut v, ", ");
    push_lit(&mut v, "CAST(MAX(d_date) AS CHAR) AS last_d_date");
    push_lit(&mut v, " FROM ");
    push_lit(&mut v, table);
    push_lit(&mut v, " GROUP BY ");
    push_root_projection(&mut v, has_root_symbol);
    push_lit(&mut v, ", ");
    push_contract_projection(&mut v, has_contract_symbol);
    push_lit(&mut v, " ORDER BY setup_count DESC, contract_symbol ASC");
    proof { assert(v@ =~= setup_root_sql_text(table@, has_root_symbol, has_contract_symbol)); }
    string_of(&v)
}

/// Each group of the setup table by stored root and contract symbol is
/// counted in rows, spanned from its earliest to its latest D date, and the
/// groups come largest first.
pub proof fn lemma_setup_root_query_counts_groups(table: Seq<char>, has_root_symbol: bool, has_contract_symbol: bool)
    ensures
        has_text(setup_root_sql_text(table, has_root_symbol, has_contract_symbol), "COUNT(*) AS setup_count"@),
        has_text(setup_root_sql_text(table, has_root_symbol, has_contract_symbol), "CAST(MIN(d_date) AS CHAR) AS first_d_date"@),
        has_text(setup_root_sql_text(table, has_root_symbol, has_contract_symbol), "CAST(MAX(d_date) AS CHAR) AS last_d_date"@),
        has_text(setup_root_sql_text(table, has_root_symbol, has_contract_symbol), " FROM "@ + table + " GROUP BY "@ + root_projection(has_root_symbol) + ", "@ + contract_projection(has_contract_symbol)),
        has_text(setup_root_sql_text(table, has_root_symbol, has_contract_symbol), " ORDER BY setup_count DESC, contract_symbol ASC"@),
{
    assert(has_text(setup_root_sql_text(table, has_root_symbol, has_contract_symbol), "COUNT(*) AS setup_count"@)) by {
        let t = "COUNT(*) AS setup_count"@;
        let x = "SELECT "@ + root_projection(has_root_symbol) + " AS stored_root_symbol, "@ + contract_projection(has_contract_symbol) + " AS contract_symbol, "@;
        lemma_has_text_end(x, t);
        let x = x + t;
        lemma_has_text_grow(x, ", "@, t);
        let x = x + ", "@;
        lemma_has_text_grow(x, "CAST(MIN(d_date) AS CHAR) AS first_d_date"@, t);
        let x = x + "CAST(MIN(d_date) AS CHAR) AS first_d_date"@;
        lemma_has_text_grow(x, ", "@, t);
        let x = x + ", "@;
        lemma_has_text_grow(x, "CAST(MAX(d_date) AS CHAR) AS last_d_date"@, t);
        let x = x + "CAST(MAX(d_date) AS CHAR) AS last_d_date"@;
        lemma_has_text_grow(x, (" FROM "@ + table + " GROUP BY "@ + root_projection(has_root_symbol) + ", "@ + contract_projection(has_contract_symbol)), t);
        let x = x + (" FROM "@ + table + " GROUP BY "@ + root_projection(has_root_symbol) + ", "@ + contract_projection(has_contract_symbol));
        lemma_has_text_grow(x, " ORDER BY setup_count DESC, contract_symbol ASC"@, t);
    }
    assert(has_text(setup_root_sql_text(table, has_root_symbol, has_contract_symbol), "CAST(MIN(d_date) AS CHAR) AS first_d_date"@)) by {
        let t = "CAST(MIN(d_date) AS CHAR) AS first_d_date"@;
        let x = "SELECT "@ + root_projection(has_root_symbol) + " AS stored_root_symbol, "@ + contract_projection(has_contract_symbol) + " AS contract_symbol, "@ + "COUNT(*) AS setup_count"@ + ", "@;
        lemma_has_text_end(x, t);
        let x = x + t;
        lemma_has_text_grow(x, ", "@, t);
        let x = x + ", "@;
        lemma_has_text_grow(x, "CAST(MAX(d_date) AS CHAR) AS last_d_date"@, t);
        let x = x + "CAST(MAX(d_date) AS CHAR) AS last_d_date"@;
        lemma_has_text_grow(x, (" FROM "@ + table + " GROUP BY "@ + root_projection(has_root_symbol) + ", "@ + contract_projection(has_contract_symbol)), t);
        let x = x + (" FROM "@ + table + " GROUP BY "@ + root_projection(has_root_symbol) + ", "@ + contract_projection(has_contract_symbol));
        lemma_has_text_grow(x, " ORDER BY setup_count DESC, contract_symbol ASC"@, t);
    }
    assert(has_text(setup_root_sql_text(table, has_root_symbol, has_contract_symbol), "CAST(MAX(d_date) AS CHAR) AS last_d_date"@)) by {
        let t = "CAST(MAX(d_date) AS CHAR) AS last_d_date"@;
        let x = "SELECT "@ + root_projection(has_root_symbol) + " AS stored_root_symbol, "@ + contract_projection(has_contract_symbol) + " AS contract_symbol, "@ + "COUNT(*) AS setup_count"@ + ", "@ + "CAST(MIN(d_date) AS CHAR) AS first_d_date"@ + ", "@;
        lemma_has_text_end(x, t);
        let x = x + t;
        lemma_has_text_grow(x, (" FROM "@ + table + " GROUP BY "@ + root_projection(has_root_symbol) + ", "@ + contract_projection(has_contract_symbol)), t);
        let x = x + (" FROM "@ + table + " GROUP BY "@ + root_projection(has_root_symbol) + ", "@ + contract_projection(has_contract_symbol));
        lemma_has_text_grow(x, " ORDER BY setup_count DESC, contract_symbol ASC"@, t);
    }
    assert(has_text(setup_root_sql_text(table, has_root_symbol, has_contract_symbol), (" FROM "@ + table + " GROUP BY "@ + root_projection(has_root_symbol) + ", "@ + contract_projection(has_contract_symbol)))) by {
        let t = (" FROM "@ + table + " GROUP BY "@ + root_projection(has_root_symbol) + ", "@ + contract_projection(has_contract_symbol));
        let x = "SELECT "@ + root_projection(has_root_symbol) + " AS stored_root_symbol, "@ + contract_projection(has_contract_symbol) + " AS contract_symbol, "@ + "COUNT(*) AS setup_count"@ + ", "@ + "CAST(MIN(d_date) AS CHAR) AS first_d_date"@ + ", "@ + "CAST(MAX(d_date) AS CHAR) AS last_d_date"@;
        lemma_has_text_end(x, t);
        let x = x + t;
        lemma_has_text_grow(x, " ORDER BY setup_count DESC, contract_symbol ASC"@, t);
    }
    assert(has_text(setup_root_sql_text(table, has_root_symbol, has_contract_symbol), " ORDER BY setup_count DESC, contract_symbol ASC"@)) by {
        let t = " ORDER BY setup_count DESC, contract_symbol ASC"@;
        let x = "SELECT "@ + root_projection(has_root_symbol) + " AS stored_root_symbol, "@ + contract_projection(has_contract_symbol) + " AS contract_symbol, "@ + "COUNT(*) AS setup_count"@ + ", "@ + "CAST(MIN(d_date) AS CHAR) AS first_d_date"@ + ", "@ + "CAST(MAX(d_date) AS CHAR) AS last_d_date"@ + (" FROM "@ + table + " GROUP BY "@ + root_projection(has_root_symbol) + ", "@ + contract_projection(has_contract_symbol));
        lemma_has_text_end(x, t);
    }
}

/// The setup groups of a table by stored root, contract symbol and timeframe.
pub open spec fn setup_contract_sql_text(table: Seq<char>, has_root_symbol: bool, has_contract_symbol: bool, has_source_timeframe: bool) -> Seq<char> {
    "SELECT "@ + root_projection(has_root_symbol) + " AS stored_root_symbol, "@
        + contract_projection(has_contract_symbol) + " AS contract_symbol, "@
        + timeframe_projection(has_source_timeframe) + " AS source_timeframe, "@
        + "COUNT(*) AS setup_count"@ + ", "@ + "CAST(MIN(d_date) AS CHAR) AS first_d_date"@ + ", "@
        + "CAST(MAX(d_date) AS CHAR) AS last_d_date"@
        + (" FROM "@ + table + " GROUP BY "@ + root_projection(has_root_symbol) + ", "@ + contract_projection(has_contract_symbol) + ", "@ + timeframe_projection(has_source_timeframe))
        + " ORDER BY setup_count DESC, contract_symbol ASC, source_timeframe ASC"@
}

/// The query of a setup table's groups by stored root, contract symbol and timeframe.
pub fn setup_contract_sql(table: &str, has_root_symbol: bool, has_contract_symbol: bool, has_source_timeframe: bool) -> (r: String)
    ensures r@ == setup_contract_sql_text(table@, has_root_symbol, has_contract_symbol, has_source_timeframe),
{
    let mut v = chars_of("SELECT ");
    push_root_projection(&mut v, has_root_symbol);
    push_lit(&mut v, " AS stored_root_symbol, ");
    push_contract_projection(&mut v, has_contract_symbol);
    push_lit(&mut v, " AS contract_symbol, ");
    push_timeframe_projection(&mut v, has_source_timeframe);
    push_lit(&mut v, " AS source_timeframe, ");
    push_lit(&mut v, "COUNT(*) AS setup_count");
    push_lit(&mut v, ", ");
    push_lit(&mut v, "CAST(MIN(d_date) AS CHAR) AS first_d_date");
    push_lit(&mut v, ", ");
    push_lit(&mut v, "CAST(MAX(d_date) AS CHAR) AS last_d_date");
    push_lit(&mut v, " FROM ");
    push_lit(&mut v, table);
    push_lit(&mut v, " GROUP BY ");
    push_root_projection(&mut v, has_root_symbol);
    push_lit(&mut v, ", ");
    push_contract_projection(&mut v, has_contract_symbol);
    push_lit(&mut v, ", ");
    push_timeframe_projection(&mut v, has_source_timeframe);
    push_lit(&mut v, " ORDER BY setup_count DESC, contract_symbol ASC, source_timeframe ASC");
    proof { assert(v@ =~= setup_contract_sql_text(table@, has_root_symbol, has_contract_symbol, has_source_timeframe)); }
    string_of(&v)
}

/// Each group of the setup table by stored root, contract symbol and
/// timeframe is counted in rows, spanned from its earliest to its latest D
/// date, and the groups come largest first.
pub proof fn lemma_setup_contract_query_counts_groups(table: Seq<char>, has_root_symbol: bool, has_contract_symbol: bool, has_source_timeframe: bool)
    ensures
        has_text(setup_contract_sql_text(table, has_root_symbol, has_contract_symbol, has_source_timeframe), "COUNT(*) AS setup_count"@),
        has_text(setup_contract_sql_text(table, has_root_symbol, has_contract_symbol, has_source_timeframe), "CAST(MIN(d_date) AS CHAR) AS first_d_date"@),
        has_text(setup_contract_sql_text(table, has_root_symbol, has_contract_symbol, has_source_timeframe), "CAST(MAX(d_date) AS CHAR) AS last_d_date"@),
        has_text(setup_contract_sql_text(table, has_root_symbol, has_contract_symbol, has_source_timeframe), " FROM "@ + table + " GROUP BY "@ + root_projection(has_root_symbol) + ", "@ + contract_projection(has_contract_symbol) + ", "@ + timeframe_projection(has_source_timeframe)),
        has_text(setup_contract_sql_text(table, has_root_symbol, has_contract_symbol, has_source_timeframe), " ORDER BY setup_count DESC, contract_symbol ASC, source_timeframe ASC"@),
{
    assert(has_text(setup_contract_sql_text(table, has_root_symbol, has_contract_symbol, has_source_timeframe), "COUNT(*) AS setup_count"@)) by {
        let t = "COUNT(*) AS setup_count"@;
        let x = "SELECT "@ + root_projection(has_root_symbol) + " AS stored_root_symbol, "@ + contract_projection(has_contract_symbol) + " AS contract_symbol, "@ + timeframe_projection(has_source_timeframe) + " AS source_timeframe, "@;
        lemma_has_text_end(x, t);
        let x = x + t;
        lemma_has_text_grow(x, ", "@, t);
        let x = x + ", "@;
        lemma_has_text_grow(x, "CAST(MIN(d_date) AS CHAR) AS first_d_date"@, t);
        let x = x + "CAST(MIN(d_date) AS CHAR) AS first_d_date"@;
        lemma_has_text_grow(x, ", "@, t);
        let x = x + ", "@;
        lemma_has_text_grow(x, "CAST(MAX(d_date) AS CHAR) AS last_d_date"@, t);
        let x = x + "CAST(MAX(d_date) AS CHAR) AS last_d_date"@;
        lemma_has_text_grow(x, (" FROM "@ + table + " GROUP BY "@ + root_projection(has_root_symbol) + ", "@ + contract_projection(has_contract_symbol) + ", "@ + timeframe_projection(has_source_timeframe)), t);
        let x = x + (" FROM "@ + table + " GROUP BY "@ + root_projection(has_root_symbol) + ", "@ + contract_projection(has_contract_symbol) + ", "@ + timeframe_projection(has_source_timeframe));
        lemma_has_text_grow(x, " ORDER BY setup_count DESC, contract_symbol ASC, source_timeframe ASC"@, t);
    }
    assert(has_text(setup_contract_sql_text(table, has_root_symbol, has_contract_symbol, has_source_timeframe), "CAST(MIN(d_date) AS CHAR) AS first_d_date"@)) by {
        let t = "CAST(MIN(d_date) AS CHAR) AS first_d_date"@;
        let x = "SELECT "@ + root_projection(has_root_symbol) + " AS stored_root_symbol, "@ + contract_projection(has_contract_symbol) + " AS contract_symbol, "@ + timeframe_projection(has_source_timeframe) + " AS source_timeframe, "@ + "COUNT(*) AS setup_count"@ + ", "@;
        lemma_has_text_end(x, t);
        let x = x + t;
        lemma_has_text_grow(x, ", "@, t);
        let x = x + ", "@;
        lemma_has_text_grow(x, "CAST(MAX(d_date) AS CHAR) AS last_d_date"@, t);
        let x = x + "CAST(MAX(d_date) AS CHAR) AS last_d_date"@;
        lemma_has_text_grow(x, (" FROM "@ + table + " GROUP BY "@ + root_projection(has_root_symbol) + ", "@ + contract_projection(has_contract_symbol) + ", "@ + timeframe_projection(has_source_timeframe)), t);
        let x = x + (" FROM "@ + table + " GROUP BY "@ + root_projection(has_root_symbol) + ", "@ + contract_projection(has_contract_symbol) + ", "@ + timeframe_projection(has_source_timeframe));
        lemma_has_text_grow(x, " ORDER BY setup_count DESC, contract_symbol ASC, source_timeframe ASC"@, t);
    }
    assert(has_text(setup_contract_sql_text(table, has_root_symbol, has_contract_symbol, has_source_timeframe), "CAST(MAX(d_date) AS CHAR) AS last_d_date"@)) by {
        let t = "CAST(MAX(d_date) AS CHAR) AS last_d_date"@;
        let x = "SELECT "@ + root_projection(has_root_symbol) + " AS stored_root_symbol, "@ + contract_projection(has_contract_symbol) + " AS contract_symbol, "@ + timeframe_projection(has_source_timeframe) + " AS source_timeframe, "@ + "COUNT(*) AS setup_count"@ + ", "@ + "CAST(MIN(d_date) AS CHAR) AS first_d_date"@ + ", "@;
        lemma_has_text_end(x, t);
        let x = x + t;
        lemma_has_text_grow(x, (" FROM "@ + table + " GROUP BY "@ + root_projection(has_root_symbol) + ", "@ + contract_projection(has_contract_symbol) + ", "@ + timeframe_projection(has_source_timeframe)), t);
        let x = x + (" FROM "@ + table + " GROUP BY "@ + root_projection(has_root_symbol) + ", "@ + contract_projection(has_contract_symbol) + ", "@ + timeframe_projection(has_source_timeframe));
        lemma_has_text_grow(x, " ORDER BY setup_count DESC, contract_symbol ASC, source_timeframe ASC"@, t);
    }
    assert(has_text(setup_contract_sql_text(table, has_root_symbol, has_contract_symbol, has_source_timeframe), (" FROM "@ + table + " GROUP BY "@ + root_projection(has_root_symbol) + ", "@ + contract_projection(has_contract_symbol) + ", "@ + timeframe_projection(has_source_timeframe)))) by {
        let t = (" FROM "@ + table + " GROUP BY "@ + root_projection(has_root_symbol) + ", "@ + contract_projection(has_contract_symbol) + ", "@ + timeframe_projection(has_source_timeframe));
        let x = "SELECT "@ + root_projection(has_root_symbol) + " AS stored_root_symbol, "@ + contract_projection(has_contract_symbol) + " AS contract_symbol, "@ + timeframe_projection(has_source_timeframe) + " AS source_timeframe, "@ + "COUNT(*) AS setup_count"@ + ", "@ + "CAST(MIN(d_date) AS CHAR) AS first_d_date"@ + ", "@ + "CAST(MAX(d_date) AS CHAR) AS last_d_date"@;
        lemma_has_text_end(x, t);
        let x = x + t;
        lemma_has_text_grow(x, " ORDER BY setup_count DESC, contract_symbol ASC, source_timeframe ASC"@, t);
    }
    assert(has_text(setup_contract_sql_text(table, has_root_symbol, has_contract_symbol, has_source_timeframe), " ORDER BY setup_count DESC, contract_symbol ASC, source_timeframe ASC"@)) by {
        let t = " ORDER BY setup_count DESC, contract_symbol ASC, source_timeframe ASC"@;
        let x = "SELECT "@ + root_projection(has_root_symbol) + " AS stored_root_symbol, "@ + contract_projection(has_contract_symbol) + " AS contract_symbol, "@ + timeframe_projection(has_source_timeframe) + " AS source_timeframe, "@ + "COUNT(*) AS setup_count"@ + ", "@ + "CAST(MIN(d_date) AS CHAR) AS first_d_date"@ + ", "@ + "CAST(MAX(d_date) AS CHAR) AS last_d_date"@ + (" FROM "@ + table + " GROUP BY "@ + root_projection(has_root_symbol) + ", "@ + contract_projection(has_contract_symbol) + ", "@ + timeframe_projection(has_source_timeframe));
        lemma_has_text_end(x, t);
    }
}

/// The setup groups of a table by stored root, contract symbol, timeframe,
/// market and harmonic type.
pub open spec fn setup_pattern_sql_text(table: Seq<char>, has_root_symbol: bool, has_contract_symbol: bool, has_source_timeframe: bool) -> Seq<char> {
    "SELECT "@ + root_projection(has_root_symbol) + " AS stored_root_symbol, "@
        + contract_projection(has_contract_symbol) + " AS contract_symbol, "@
        + timeframe_projection(has_source_timeframe) + " AS source_timeframe, "@
        + "COALESCE(NULLIF(market, ''), 'Unknown')"@ + " AS market, "@
        + "COALESCE(NULLIF(harmonic_type, ''), 'Unknown')"@ + " AS harmonic_type, "@
        + "COUNT(*) AS setup_count"@ + ", "@ + "CAST(MIN(d_date) AS CHAR) AS first_d_date"@ + ", "@
        + "CAST(MAX(d_date) AS CHAR) AS last_d_date"@
        + (" FROM "@ + table + " GROUP BY "@ + root_projection(has_root_symbol) + ", "@ + contract_projection(has_contract_symbol) + ", "@ + timeframe_projection(has_source_timeframe) + ", "@ + "COALESCE(NULLIF(market, ''), 'Unknown')"@ + ", "@ + "COALESCE(NULLIF(harmonic_type, ''), 'Unknown')"@)
        + " ORDER BY setup_count DESC, source_timeframe ASC, market ASC, harmonic_type ASC"@
}

/// The query of a setup table's groups by stored root, contract symbol,
/// timeframe, market and harmonic type.
pub fn setup_pattern_sql(table: &str, has_root_symbol: bool, has_contract_symbol: bool, has_source_timeframe: bool) -> (r: String)
    ensures r@ == setup_pattern_sql_text(table@, has_root_symbol, has_contract_symbol, has_source_timeframe),
{
    let mut v = chars_of("SELECT ");
    push_root_projection(&mut v, has_root_symbol);
    push_lit(&mut v, " AS stored_root_symbol, ");
    push_contract_projection(&mut v, has_contract_symbol);
    push_lit(&mut v, " AS contract_symbol, ");
    push_timeframe_projection(&mut v, has_source_timeframe);
    push_lit(&mut v, " AS source_timeframe, ");
    push_lit(&mut v, "COALESCE(NULLIF(market, ''), 'Unknown')");
    push_lit(&mut v, " AS market, ");
    push_lit(&mut v, "COALESCE(NULLIF(harmonic_type, ''), 'Unknown')");
    push_lit(&mut v, " AS harmonic_type, ");
    push_lit(&mut v, "COUNT(*) AS setup_count");
    push_lit(&mut v, ", ");
    push_lit(&mut v, "CAST(MIN(d_date) AS CHAR) AS first_d_date");
    push_lit(&mut v, ", ");
    push_lit(&mut v, "CAST(MAX(d_date) AS CHAR) AS last_d_date");
    push_lit(&mut v, " FROM ");
    push_lit(&mut v, table);
    push_lit(&mut v, " GROUP BY ");
    push_root_projection(&mut v, has_root_symbol);
    push_lit(&mut v, ", ");
    push_contract_projection(&mut v, has_contract_symbol);
    push_lit(&mut v, ", ");
    push_timeframe_projection(&mut v, has_source_timeframe);
    push_lit(&mut v, ", ");
    push_lit(&mut v, "COALESCE(NULLIF(market, ''), 'Unknown')");
    push_lit(&mut v, ", ");
    push_lit(&mut v, "COALESCE(NULLIF(harmonic_type, ''), 'Unknown')");
    push_lit(&mut v, " ORDER BY setup_count DESC, source_timeframe ASC, market ASC, harmonic_type ASC");
    proof { assert(v@ =~= setup_pattern_sql_text(table@, has_root_symbol, has_contract_symbol, has_source_timeframe)); }
    string_of(&v)
}

/// Each group of the setup table by stored root, contract symbol, timeframe,
/// market and harmonic type (blank market and type read as `Unknown`) is
/// counted in rows, spanned from its earliest to its latest D date, and the
/// groups come largest first.
pub proof fn lemma_setup_pattern_query_counts_groups(table: Seq<char>, has_root_symbol: bool, has_contract_symbol: bool, has_source_timeframe: bool)
    ensures
        has_text(setup_pattern_sql_text(table, has_root_symbol, has_contract_symbol, has_source_timeframe), "COUNT(*) AS setup_count"@),
        has_text(setup_pattern_sql_text(table, has_root_symbol, has_contract_symbol, has_source_timeframe), "CAST(MIN(d_date) AS CHAR) AS first_d_date"@),
        has_text(setup_pattern_sql_text(table, has_root_symbol, has_contract_symbol, has_source_timeframe), "CAST(MAX(d_date) AS CHAR) AS last_d_date"@),
        has_text(setup_pattern_sql_text(table, has_root_symbol, has_contract_symbol, has_source_timeframe), " FROM "@ + table + " GROUP BY "@ + root_projection(has_root_symbol) + ", "@ + contract_projection(has_contract_symbol) + ", "@ + timeframe_projection(has_source_timeframe) + ", "@ + "COALESCE(NULLIF(market, ''), 'Unknown')"@ + ", "@ + "COALESCE(NULLIF(harmonic_type, ''), 'Unknown')"@),
        has_text(setup_pattern_sql_text(table, has_root_symbol, has_contract_symbol, has_source_timeframe), " ORDER BY setup_count DESC, source_timeframe ASC, market ASC, harmonic_type ASC"@),
{
    assert(has_text(setup_pattern_sql_text(table, has_root_symbol, has_contract_symbol, has_source_timeframe), "COUNT(*) AS setup_count"@)) by {
        let t = "COUNT(*) AS setup_count"@;
        let x = "SELECT "@ + root_projection(has_root_symbol) + " AS stored_root_symbol, "@ + contract_projection(has_contract_symbol) + " AS contract_symbol, "@ + timeframe_projection(has_source_timeframe) + " AS source_timeframe, "@ + "COALESCE(NULLIF(market, ''), 'Unknown')"@ + " AS market, "@ + "COALESCE(NULLIF(harmonic_type, ''), 'Unknown')"@ + " AS harmonic_type, "@;
        lemma_has_text_end(x, t);
        let x = x + t;
        lemma_has_text_grow(x, ", "@, t);
        let x = x + ", "@;
        lemma_has_text_grow(x, "CAST(MIN(d_date) AS CHAR) AS first_d_date"@, t);
        let x = x + "CAST(MIN(d_date) AS CHAR) AS first_d_date"@;
        lemma_has_text_grow(x, ", "@, t);
        let x = x + ", "@;
        lemma_has_text_grow(x, "CAST(MAX(d_date) AS CHAR) AS last_d_date"@, t);
        let x = x + "CAST(MAX(d_date) AS CHAR) AS last_d_date"@;
        lemma_has_text_grow(x, (" FROM "@ + table + " GROUP BY "@ + root_projection(has_root_symbol) + ", "@ + contract_projection(has_contract_symbol) + ", "@ + timeframe_projection(has_source_timeframe) + ", "@ + "COALESCE(NULLIF(market, ''), 'Unknown')"@ + ", "@ + "COALESCE(NULLIF(harmonic_type, ''), 'Unknown')"@), t);
        let x = x + (" FROM "@ + table + " GROUP BY "@ + root_projection(has_root_symbol) + ", "@ + contract_projection(has_contract_symbol) + ", "@ + timeframe_projection(has_source_timeframe) + ", "@ + "COALESCE(NULLIF(market, ''), 'Unknown')"@ + ", "@ + "COALESCE(NULLIF(harmonic_type, ''), 'Unknown')"@);
        lemma_has_text_grow(x, " ORDER BY setup_count DESC, source_timeframe ASC, market ASC, harmonic_type ASC"@, t);
    }
    assert(has_text(setup_pattern_sql_text(table, has_root_symbol, has_contract_symbol, has_source_timeframe), "CAST(MIN(d_date) AS CHAR) AS first_d_date"@)) by {
        let t = "CAST(MIN(d_date) AS CHAR) AS first_d_date"@;
        let x = "SELECT "@ + root_projection(has_root_symbol) + " AS stored_root_symbol, "@ + contract_projection(has_contract_symbol) + " AS contract_symbol, "@ + timeframe_projection(has_source_timeframe) + " AS source_timeframe, "@ + "COALESCE(NULLIF(market, ''), 'Unknown')"@ + " AS market, "@ + "COALESCE(NULLIF(harmonic_type, ''), 'Unknown')"@ + " AS harmonic_type, "@ + "COUNT(*) AS setup_count"@ + ", "@;
        lemma_has_text_end(x, t);
        let x = x + t;
        lemma_has_text_grow(x, ", "@, t);
        let x = x + ", "@;
        lemma_has_text_grow(x, "CAST(MAX(d_date) AS CHAR) AS last_d_date"@, t);
        let x = x + "CAST(MAX(d_date) AS CHAR) AS last_d_date"@;
        lemma_has_text_grow(x, (" FROM "@ + table + " GROUP BY "@ + root_projection(has_root_symbol) + ", "@ + contract_projection(has_contract_symbol) + ", "@ + timeframe_projection(has_source_timeframe) + ", "@ + "COALESCE(NULLIF(market, ''), 'Unknown')"@ + ", "@ + "COALESCE(NULLIF(harmonic_type, ''), 'Unknown')"@), t);
        let x = x + (" FROM "@ + table + " GROUP BY "@ + root_projection(has_root_symbol) + ", "@ + contract_projection(has_contract_symbol) + ", "@ + timeframe_projection(has_source_timeframe) + ", "@ + "COALESCE(NULLIF(market, ''), 'Unknown')"@ + ", "@ + "COALESCE(NULLIF(harmonic_type, ''), 'Unknown')"@);
        lemma_has_text_grow(x, " ORDER BY setup_count DESC, source_timeframe ASC, market ASC, harmonic_type ASC"@, t);
    }
    assert(has_text(setup_pattern_sql_text(table, has_root_symbol, has_contract_symbol, has_source_timeframe), "CAST(MAX(d_date) AS CHAR) AS last_d_date"@)) by {
        let t = "CAST(MAX(d_date) AS CHAR) AS last_d_date"@;
        let x = "SELECT "@ + root_projection(has_root_symbol) + " AS stored_root_symbol, "@ + contract_projection(has_contract_symbol) + " AS contract_symbol, "@ + timeframe_projection(has_source_timeframe) + " AS source_timeframe, "@ + "COALESCE(NULLIF(market, ''), 'Unknown')"@ + " AS market, "@ + "COALESCE(NULLIF(harmonic_type, ''), 'Unknown')"@ + " AS harmonic_type, "@ + "COUNT(*) AS setup_count"@ + ", "@ + "CAST(MIN(d_date) AS CHAR) AS first_d_date"@ + ", "@;
        lemma_has_text_end(x, t);
        let x = x + t;
        lemma_has_text_grow(x, (" FROM "@ + table + " GROUP BY "@ + root_projection(has_root_symbol) + ", "@ + contract_projection(has_contract_symbol) + ", "@ + timeframe_projection(has_source_timeframe) + ", "@ + "COALESCE(NULLIF(market, ''), 'Unknown')"@ + ", "@ + "COALESCE(NULLIF(harmonic_type, ''), 'Unknown')"@), t);
        let x = x + (" FROM "@ + table + " GROUP BY "@ + root_projection(has_root_symbol) + ", "@ + contract_projection(has_contract_symbol) + ", "@ + timeframe_projection(has_source_timeframe) + ", "@ + "COALESCE(NULLIF(market, ''), 'Unknown')"@ + ", "@ + "COALESCE(NULLIF(harmonic_type, ''), 'Unknown')"@);
        lemma_has_text_grow(x, " ORDER BY setup_count DESC, source_timeframe ASC, market ASC, harmonic_type ASC"@, t);
    }
    assert(has_text(setup_pattern_sql_text(table, has_root_symbol, has_contract_symbol, has_source_timeframe), (" FROM "@ + table + " GROUP BY "@ + root_projection(has_root_symbol) + ", "@ + contract_projection(has_contract_symbol) + ", "@ + timeframe_projection(has_source_timeframe) + ", "@ + "COALESCE(NULLIF(market, ''), 'Unknown')"@ + ", "@ + "COALESCE(NULLIF(harmonic_type, ''), 'Unknown')"@))) by {
        let t = (" FROM "@ + table + " GROUP BY "@ + root_projection(has_root_symbol) + ", "@ + contract_projection(has_contract_symbol) + ", "@ + timeframe_projection(has_source_timeframe) + ", "@ + "COALESCE(NULLIF(market, ''), 'Unknown')"@ + ", "@ + "COALESCE(NULLIF(harmonic_type, ''), 'Unknown')"@);
        let x = "SELECT "@ + root_projection(has_root_symbol) + " AS stored_root_symbol, "@ + contract_projection(has_contract_symbol) + " AS contract_symbol, "@ + timeframe_projection(has_source_timeframe) + " AS source_timeframe, "@ + "COALESCE(NULLIF(market, ''), 'Unknown')"@ + " AS market, "@ + "COALESCE(NULLIF(harmonic_type, ''), 'Unknown')"@ + " AS harmonic_type, "@ + "COUNT(*) AS setup_count"@ + ", "@ + "CAST(MIN(d_date) AS CHAR) AS first_d_date"@ + ", "@ + "CAST(MAX(d_date) AS CHAR) AS last_d_date"@;
        lemma_has_text_end(x, t);
        let x = x + t;
        lemma_has_text_grow(x, " ORDER BY setup_count DESC, source_timeframe ASC, market ASC, harmonic_type ASC"@, t);
    }
    assert(has_text(setup_pattern_sql_text(table, has_root_symbol, has_contract_symbol, has_source_timeframe), " ORDER BY setup_count DESC, source_timeframe ASC, market ASC, harmonic_type ASC"@)) by {
        let t = " ORDER BY setup_count DESC, source_timeframe ASC, market ASC, harmonic_type ASC"@;
        let x = "SELECT "@ + root_projection(has_root_symbol) + " AS stored_root_symbol, "@ + contract_projection(has_contract_symbol) + " AS contract_symbol, "@ + timeframe_projection(has_source_timeframe) + " AS source_timeframe, "@ + "COALESCE(NULLIF(market, ''), 'Unknown')"@ + " AS market, "@ + "COALESCE(NULLIF(harmonic_type, ''), 'Unknown')"@ + " AS harmonic_type, "@ + "COUNT(*) AS setup_count"@ + ", "@ + "CAST(MIN(d_date) AS CHAR) AS first_d_date"@ + ", "@ + "CAST(MAX(d_date) AS CHAR) AS last_d_date"@ + (" FROM "@ + table + " GROUP BY "@ + root_projection(has_root_symbol) + ", "@ + contract_projection(has_contract_symbol) + ", "@ + timeframe_projection(has_source_timeframe) + ", "@ + "COALESCE(NULLIF(market, ''), 'Unknown')"@ + ", "@ + "COALESCE(NULLIF(harmonic_type, ''), 'Unknown')"@);
        lemma_has_text_end(x, t);
    }
}

/// The setup counts of a table by market and harmonic type.
pub open spec fn setup_market_sql_text(table: Seq<char>) -> Seq<char> {
    "SELECT market, harmonic_type, "@ + "COUNT(*) AS setup_count"@
        + (" FROM "@ + table + " GROUP BY market, harmonic_type"@)
        + " ORDER BY setup_count DESC, market ASC, harmonic_type ASC"@
}

/// The query of a setup table's counts by market and harmonic type.
pub fn setup_market_sql(table: &str) -> (r: String)
    ensures r@ == setup_market_sql_text(table@),
{
    let mut v = chars_of("SELECT market, harmonic_type, ");
    push_lit(&mut v, "COUNT(*) AS setup_count");
    push_lit(&mut v, " FROM ");
    push_lit(&mut v, table);
    push_lit(&mut v, " GROUP BY market, harmonic_type");
    push_lit(&mut v, " ORDER BY setup_count DESC, market ASC, harmonic_type ASC");
    proof { assert(v@ =~= setup_market_sql_text(table@)); }
    string_of(&v)
}

/// The setups of a table are counted in rows for each market and harmonic
/// type, largest count first.
pub proof fn lemma_setup_market_query_counts_groups(table: Seq<char>)
    ensures
        has_text(setup_market_sql_text(table), "COUNT(*) AS setup_count"@),
        has_text(setup_market_sql_text(table), " FROM "@ + table + " GROUP BY market, harmonic_type"@),
        has_text(setup_market_sql_text(table), " ORDER BY setup_count DESC, market ASC, harmonic_type ASC"@),
{
    assert(has_text(setup_market_sql_text(table), "COUNT(*) AS setup_count"@)) by {
        let t = "COUNT(*) AS setup_count"@;
        let x = "SELECT market, harmonic_type, "@;
        lemma_has_text_end(x, t);
        let x = x + t;
        lemma_has_text_grow(x, (" FROM "@ + table + " GROUP BY market, harmonic_type"@), t);
        let x = x + (" FROM "@ + table + " GROUP BY market, harmonic_type"@);
        lemma_has_text_grow(x, " ORDER BY setup_count DESC, market ASC, harmonic_type ASC"@, t);
    }
    assert(has_text(setup_market_sql_text(table), (" FROM "@ + table + " GROUP BY market, harmonic_type"@))) by {
        let t = (" FROM "@ + table + " GROUP BY market, harmonic_type"@);
        let x = "SELECT market, harmonic_type, "@ + "COUNT(*) AS setup_count"@;
        lemma_has_text_end(x, t);
        let x = x + t;
        lemma_has_text_grow(x, " ORDER BY setup_count DESC, market ASC, harmonic_type ASC"@, t);
    }
    assert(has_text(setup_market_sql_text(table), " ORDER BY setup_count DESC, market ASC, harmonic_type ASC"@)) by {
        let t = " ORDER BY setup_count DESC, market ASC, harmonic_type ASC"@;
        let x = "SELECT market, harmonic_type, "@ + "COUNT(*) AS setup_count"@ + (" FROM "@ + table + " GROUP BY market, harmonic_type"@);
        lemma_has_text_end(x, t);
    }
}

/// The contracts, candles and time span of each root in a candle table.
pub open spec fn futures_root_sql_text(table: Seq<char>) -> Seq<char> {
    "SELECT root_symbol, "@ + "COUNT(DISTINCT symbol) AS contract_count"@ + ", "@
        + "COUNT(*) AS candle_count"@ + ", CAST("@ + "MIN(ts_utc) AS CHAR) AS first_ts"@ + ", CAST("@
        + "MAX(ts_utc) AS CHAR) AS last_ts"@ + (" FROM "@ + table + " GROUP BY root_symbol"@)
        + " ORDER BY candle_count DESC, root_symbol ASC"@
}

/// The query of a candle table's roots.
pub fn futures_root_sql(table: &str) -> (r: String)
    ensures r@ == futures_root_sql_text(table@),
{
    let mut v = chars_of("SELECT root_symbol, ");
    push_lit(&mut v, "COUNT(DISTINCT symbol) AS contract_count");
    push_lit(&mut v, ", ");
    push_lit(&mut v, "COUNT(*) AS candle_count");
    push_lit(&mut v, ", CAST(");
    push_lit(&mut v, "MIN(ts_utc) AS CHAR) AS first_ts");
    push_lit(&mut v, ", CAST(");
    push_lit(&mut v, "MAX(ts_utc) AS CHAR) AS last_ts");
    push_lit(&mut v, " FROM ");
    push_lit(&mut v, table);
    push_lit(&mut v, " GROUP BY root_symbol");
    push_lit(&mut v, " ORDER BY candle_count DESC, root_symbol ASC");
    proof { assert(v@ =~= futures_root_sql_text(table@)); }
    string_of(&v)
}

/// A root's contract count counts its distinct contract symbols, not its
/// candles; its candle count counts rows; its span runs from the earliest
/// to the latest candle time; and the rows are grouped by root over the
/// given table.
pub proof fn lemma_root_query_counts_distinct_contracts(table: Seq<char>)
    ensures
        has_text(futures_root_sql_text(table), "COUNT(DISTINCT symbol) AS contract_count"@),
        has_text(futures_root_sql_text(table), "COUNT(*) AS candle_count"@),
        has_text(futures_root_sql_text(table), "MIN(ts_utc) AS CHAR) AS first_ts"@),
        has_text(futures_root_sql_text(table), "MAX(ts_utc) AS CHAR) AS last_ts"@),
        has_text(futures_root_sql_text(table), " FROM "@ + table + " GROUP BY root_symbol"@),
{
    assert(has_text(futures_root_sql_text(table), "COUNT(DISTINCT symbol) AS contract_count"@)) by {
        let t = "COUNT(DISTINCT symbol) AS contract_count"@;
        let x = "SELECT root_symbol, "@;
        lemma_has_text_end(x, t);
        let x = x + t;
        lemma_has_text_grow(x, ", "@, t);
        let x = x + ", "@;
        lemma_has_text_grow(x, "COUNT(*) AS candle_count"@, t);
        let x = x + "COUNT(*) AS candle_count"@;
        lemma_has_text_grow(x, ", CAST("@, t);
        let x = x + ", CAST("@;
        lemma_has_text_grow(x, "MIN(ts_utc) AS CHAR) AS first_ts"@, t);
        let x = x + "MIN(ts_utc) AS CHAR) AS first_ts"@;
        lemma_has_text_grow(x, ", CAST("@, t);
        let x = x + ", CAST("@;
        lemma_has_text_grow(x, "MAX(ts_utc) AS CHAR) AS last_ts"@, t);
        let x = x + "MAX(ts_utc) AS CHAR) AS last_ts"@;
        lemma_has_text_grow(x, (" FROM "@ + table + " GROUP BY root_symbol"@), t);
        let x = x + (" FROM "@ + table + " GROUP BY root_symbol"@);
        lemma_has_text_grow(x, " ORDER BY candle_count DESC, root_symbol ASC"@, t);
    }
    assert(has_text(futures_root_sql_text(table), "COUNT(*) AS candle_count"@)) by {
        let t = "COUNT(*) AS candle_count"@;
        let x = "SELECT root_symbol, "@ + "COUNT(DISTINCT symbol) AS contract_count"@ + ", "@;
        lemma_has_text_end(x, t);
        let x = x + t;
        lemma_has_text_grow(x, ", CAST("@, t);
        let x = x + ", CAST("@;
        lemma_has_text_grow(x, "MIN(ts_utc) AS CHAR) AS first_ts"@, t);
        let x = x + "MIN(ts_utc) AS CHAR) AS first_ts"@;
        lemma_has_text_grow(x, ", CAST("@, t);
        let x = x + ", CAST("@;
        lemma_has_text_grow(x, "MAX(ts_utc) AS CHAR) AS last_ts"@, t);
        let x = x + "MAX(ts_utc) AS CHAR) AS last_ts"@;
        lemma_has_text_grow(x, (" FROM "@ + table + " GROUP BY root_symbol"@), t);
        let x = x + (" FROM "@ + table + " GROUP BY root_symbol"@);
        lemma_has_text_grow(x, " ORDER BY candle_count DESC, root_symbol ASC"@, t);
    }
    assert(has_text(futures_root_sql_text(table), "MIN(ts_utc) AS CHAR) AS first_ts"@)) by {
        let t = "MIN(ts_utc) AS CHAR) AS first_ts"@;
        let x = "SELECT root_symbol, "@ + "COUNT(DISTINCT symbol) AS contract_count"@ + ", "@ + "COUNT(*) AS candle_count"@ + ", CAST("@;
        lemma_has_text_end(x, t);
        let x = x + t;
        lemma_has_text_grow(x, ", CAST("@, t);
        let x = x + ", CAST("@;
        lemma_has_text_grow(x, "MAX(ts_utc) AS CHAR) AS last_ts"@, t);
        let x = x + "MAX(ts_utc) AS CHAR) AS last_ts"@;
        lemma_has_text_grow(x, (" FROM "@ + table + " GROUP BY root_symbol"@), t);
        let x = x + (" FROM "@ + table + " GROUP BY root_symbol"@);
        lemma_has_text_grow(x, " ORDER BY candle_count DESC, root_symbol ASC"@, t);
    }
    assert(has_text(futures_root_sql_text(table), "MAX(ts_utc) AS CHAR) AS last_ts"@)) by {
        let t = "MAX(ts_utc) AS CHAR) AS last_ts"@;
        let x = "SELECT root_symbol, "@ + "COUNT(DISTINCT symbol) AS contract_count"@ + ", "@ + "COUNT(*) AS candle_count"@ + ", CAST("@ + "MIN(ts_utc) AS CHAR) AS first_ts"@ + ", CAST("@;
        lemma_has_text_end(x, t);
        let x = x + t;
        lemma_has_text_grow(x, (" FROM "@ + table + " GROUP BY root_symbol"@), t);
        let x = x + (" FROM "@ + table + " GROUP BY root_symbol"@);
        lemma_has_text_grow(x, " ORDER BY candle_count DESC, root_symbol ASC"@, t);
    }
    assert(has_text(futures_root_sql_text(table), (" FROM "@ + table + " GROUP BY root_symbol"@))) by {
        let t = (" FROM "@ + table + " GROUP BY root_symbol"@);
        let x = "SELECT root_symbol, "@ + "COUNT(DISTINCT symbol) AS contract_count"@ + ", "@ + "COUNT(*) AS candle_count"@ + ", CAST("@ + "MIN(ts_utc) AS CHAR) AS first_ts"@ + ", CAST("@ + "MAX(ts_utc) AS CHAR) AS last_ts"@;
        lemma_has_text_end(x, t);
        let x = x + t;
        lemma_has_text_grow(x, " ORDER BY candle_count DESC, root_symbol ASC"@, t);
    }
}

/// The exact row count of a table.
pub fn exact_rows_sql(table: &str) -> (r: String)
    ensures r@ == "SELECT COUNT(*) AS exact_rows FROM "@ + table@,
{
    let mut v = chars_of("SELECT COUNT(*) AS exact_rows FROM ");
    push_lit(&mut v, table);
    string_of(&v)
}

/// The root a setup group is filed under: its stored root where that is not
/// blank, else the storage root of its contract symbol.
pub open spec fn setup_root_text(stored_root: Seq<char>, contract_symbol: Seq<char>) -> Seq<char> {
    if trim(stored_root).len() == 0 { storage_root_text(contract_symbol) } else { stored_root }
}

/// A setup group is filed under its stored root, as stored, whenever that
/// root is not blank, whatever its contract symbol; only a blank root
/// falls back to the storage root of the contract symbol.
pub proof fn lemma_setup_root_prefers_stored_root(stored_root: Seq<char>, contract_symbol: Seq<char>, other_contract: Seq<char>)
    ensures
        trim(stored_root).len() > 0 ==> setup_root_text(stored_root, contract_symbol) == stored_root,
        trim(stored_root).len() > 0
            ==> setup_root_text(stored_root, contract_symbol) == setup_root_text(stored_root, other_contract),
        trim(stored_root).len() == 0 ==> setup_root_text(stored_root, contract_symbol) == storage_root_text(contract_symbol),
{
}

/// The root a setup group is filed under.
pub fn setup_root(stored_root: &str, contract_symbol: &str) -> (r: String)
    ensures r@ == setup_root_text(stored_root@, contract_symbol@),
{
    if trim_chars(&chars_of(stored_root)).len() == 0 {
        futures_storage_root(contract_symbol)
    } else {
        crate::text::owned(stored_root)
    }
}

/// A table's data, index and total bytes from the sizes the database
/// reports, a negative size counting as none.
pub fn table_byte_counts(data_length: i64, index_length: i64) -> (r: (u64, u64, u64))
    ensures
        r.0 == (if data_length < 0 { 0 } else { data_length as int }),
        r.1 == (if index_length < 0 { 0 } else { index_length as int }),
        r.2 == r.0 + r.1,
{
    let data: u64 = if data_length < 0 { 0 } else { data_length as u64 };
    let index: u64 = if index_length < 0 { 0 } else { index_length as u64 };
    (data, index, data + index)
}

} // verus!
