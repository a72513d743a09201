//! Orderings used to arrange events and their candidates: timestamps, text in
//! code-point order, and the selection of positions in a strict order.
use vstd::prelude::*;
use vstd::multiset::Multiset;
use crate::text::chars_of;

verus! {

broadcast use vstd::seq_lib::group_to_multiset_ensures;

/// A point in time as seconds and nanoseconds, ordered as `NaiveDateTime` is.
#[derive(Clone, Copy, Debug, PartialEq, Eq)]
pub struct Timestamp {
    pub secs: i64,
    pub nanos: u32,
}

pub open spec fn ts_lt(a: Timestamp, b: Timestamp) -> bool {
    a.secs < b.secs || (a.secs == b.secs && a.nanos < b.nanos)
}

pub open spec fn ts_le(a: Timestamp, b: Timestamp) -> bool {
    !ts_lt(b, a)
}

/// Whether `a` is strictly before `b`.
pub fn ts_before(a: &Timestamp, b: &Timestamp) -> (r: bool)
    ensures r == ts_lt(*a, *b),
{
    a.secs < b.secs || (a.secs == b.secs && a.nanos < b.nanos)
}

/// The earlier of two timestamps.
pub fn ts_min(a: Timestamp, b: Timestamp) -> (r: Timestamp)
    ensures r == (if ts_lt(b, a) { b } else { a }),
{
    if ts_before(&b, &a) { b } else { a }
}

/// The later of two timestamps.
pub fn ts_max(a: Timestamp, b: Timestamp) -> (r: Timestamp)
    ensures r == (if ts_lt(a, b) { b } else { a }),
{
    if ts_before(&a, &b) { b } else { a }
}

/// Lexicographic order of texts by code point, as `String`'s `Ord` orders them.
pub open spec fn text_lt(a: Seq<char>, b: Seq<char>) -> bool
    decreases a.len(),
{
    if a.len() == 0 {
        b.len() > 0
    } else if b.len() == 0 {
        false
    } else if a[0] < b[0] {
        true
    } else if a[0] == b[0] {
        text_lt(a.drop_first(), b.drop_first())
    } else {
        false
    }
}

pub proof fn lemma_text_irreflexive(a: Seq<char>)
    ensures !text_lt(a, a),
    decreases a.len(),
{
    if a.len() > 0 {
        lemma_text_irreflexive(a.drop_first());
    }
}

pub proof fn lemma_text_total(a: Seq<char>, b: Seq<char>)
    ensures a == b || text_lt(a, b) || text_lt(b, a),
    decreases a.len(),
{
    if a.len() > 0 && b.len() > 0 {
        if a[0] == b[0] {
            lemma_text_total(a.drop_first(), b.drop_first());
            if a.drop_first() == b.drop_first() {
                assert(a =~= seq![a[0]] + a.drop_first());
                assert(b =~= seq![b[0]] + b.drop_first());
            }
        } else {
        }
    } else if a.len() == 0 && b.len() == 0 {
        assert(a =~= b);
    }
}

pub proof fn lemma_text_asymmetric(a: Seq<char>, b: Seq<char>)
    ensures !(text_lt(a, b) && text_lt(b, a)),
    decreases a.len(),
{
    if a.len() > 0 && b.len() > 0 && a[0] == b[0] {
        lemma_text_asymmetric(a.drop_first(), b.drop_first());
    }
}

pub proof fn lemma_text_transitive(a: Seq<char>, b: Seq<char>, c: Seq<char>)
    requires text_lt(a, b), text_lt(b, c),
    ensures text_lt(a, c),
    decreases a.len(),
{
    if a.len() > 0 && b.len() > 0 && c.len() > 0 {
        if a[0] == b[0] && b[0] == c[0] {
            lemma_text_transitive(a.drop_first(), b.drop_first(), c.drop_first());
        }
    }
}

/// Whether text `a` sorts strictly before text `b`.
pub fn text_before(a: &Vec<char>, b: &Vec<char>) -> (r: bool)
    ensures r == text_lt(a@, b@),
{
    let mut i: usize = 0;
    proof {
        assert(a@.skip(0) =~= a@);
        assert(b@.skip(0) =~= b@);
    }
    while i < a.len() && i < b.len() && a[i] == b[i]
        invariant
            i <= a.len(),
            i <= b.len(),
            text_lt(a@, b@) == text_lt(a@.skip(i as int), b@.skip(i as int)),
        decreases a.len() - i,
    {
        proof {
            let x = a@.skip(i as int);
            let y = b@.skip(i as int);
            assert(x.drop_first() =~= a@.skip(i + 1));
            assert(y.drop_first() =~= b@.skip(i + 1));
        }
        i = i + 1;
    }
    if i == a.len() {
        i < b.len()
    } else if i == b.len() {
        false
    } else {
        a[i] < b[i]
    }
}

/// The key by which positions are arranged: a time, then a rank, then a text;
/// ties are broken by the position itself.
pub struct SortKey {
    pub at: Timestamp,
    pub rank: i64,
    pub text: Vec<char>,
}

pub open spec fn key_lt(keys: Seq<SortKey>, a: usize, b: usize) -> bool {
    let x = keys[a as int];
    let y = keys[b as int];
    ||| ts_lt(x.at, y.at)
    ||| (x.at == y.at && x.rank < y.rank)
    ||| (x.at == y.at && x.rank == y.rank && text_lt(x.text@, y.text@))
    ||| (x.at == y.at && x.rank == y.rank && x.text@ == y.text@ && a < b)
}

pub proof fn lemma_key_total(keys: Seq<SortKey>, a: usize, b: usize)
    requires a != b,
    ensures key_lt(keys, a, b) || key_lt(keys, b, a),
{
    lemma_text_total(keys[a as int].text@, keys[b as int].text@);
}

pub proof fn lemma_key_asymmetric(keys: Seq<SortKey>, a: usize, b: usize)
    ensures !(key_lt(keys, a, b) && key_lt(keys, b, a)),
{
    lemma_text_asymmetric(keys[a as int].text@, keys[b as int].text@);
    lemma_text_irreflexive(keys[a as int].text@);
}

pub proof fn lemma_key_transitive(keys: Seq<SortKey>, a: usize, b: usize, c: usize)
    requires key_lt(keys, a, b), key_lt(keys, b, c),
    ensures key_lt(keys, a, c),
{
    let x = keys[a as int].text@;
    let y = keys[b as int].text@;
    let z = keys[c as int].text@;
    if text_lt(x, y) && text_lt(y, z) {
        lemma_text_transitive(x, y, z);
    }
}

/// Whether position `a` comes strictly before position `b`.
pub fn key_before(keys: &Vec<SortKey>, a: usize, b: usize) -> (r: bool)
    requires a < keys.len(), b < keys.len(),
    ensures r == key_lt(keys@, a, b),
{
    let x = &keys[a];
    let y = &keys[b];
    if ts_before(&x.at, &y.at) {
        return true;
    }
    if !(x.at.secs == y.at.secs && x.at.nanos == y.at.nanos) {
        return false;
    }
    if x.rank != y.rank {
        return x.rank < y.rank;
    }
    if text_before(&x.text, &y.text) {
        return true;
    }
    if text_before(&y.text, &x.text) {
        proof { lemma_text_asymmetric(x.text@, y.text@); }
        return false;
    }
    proof {
        lemma_text_total(x.text@, y.text@);
    }
    a < b
}

/// Whether the positions are in strictly increasing key order.
pub open spec fn strictly_sorted(keys: Seq<SortKey>, s: Seq<usize>) -> bool {
    forall|i: int, j: int| 0 <= i < j < s.len() ==> key_lt(keys, #[trigger] s[i], #[trigger] s[j])
}

proof fn lemma_remove_no_dup(s: Seq<usize>, m: int)
    requires s.no_duplicates(), 0 <= m < s.len(),
    ensures s.remove(m).no_duplicates(), !s.remove(m).contains(s[m]),
{
    let r = s.remove(m);
    assert forall|i: int, j: int| 0 <= i < r.len() && 0 <= j < r.len() && i != j implies r[i] != r[j] by {
        let i2 = if i < m { i } else { i + 1 };
        let j2 = if j < m { j } else { j + 1 };
        assert(r[i] == s[i2]);
        assert(r[j] == s[j2]);
    }
    assert forall|i: int| 0 <= i < r.len() implies r[i] != s[m] by {
        let i2 = if i < m { i } else { i + 1 };
        assert(r[i] == s[i2]);
    }
}

/// The given positions arranged in strictly increasing key order.
pub fn sort_positions(keys: &Vec<SortKey>, items: Vec<usize>) -> (r: Vec<usize>)
    requires
        items@.no_duplicates(),
        forall|k: int| 0 <= k < items@.len() ==> #[trigger] items@[k] < keys.len(),
    ensures
        r@.to_multiset() == items@.to_multiset(),
        r@.len() == items@.len(),
        strictly_sorted(keys@, r@),
{
    let ghost orig = items@;
    let mut pool = items;
    let mut out: Vec<usize> = Vec::new();
    while pool.len() > 0
        invariant
            out@.to_multiset().add(pool@.to_multiset()) == orig.to_multiset(),
            out@.len() + pool@.len() == orig.len(),
            pool@.no_duplicates(),
            forall|k: int| 0 <= k < pool@.len() ==> #[trigger] pool@[k] < keys.len(),
            forall|k: int| 0 <= k < out@.len() ==> #[trigger] out@[k] < keys.len(),
            strictly_sorted(keys@, out@),
            forall|i: int, j: int| 0 <= i < out@.len() && 0 <= j < pool@.len() ==> key_lt(keys@, #[trigger] out@[i], #[trigger] pool@[j]),
        decreases pool@.len(),
    {
        let mut best: usize = 0;
        let mut k: usize = 1;
        proof { lemma_key_asymmetric(keys@, pool@[0], pool@[0]); }
        while k < pool.len()
            invariant
                0 < pool@.len(),
                best < pool@.len(),
                1 <= k <= pool@.len(),
                forall|j: int| 0 <= j < pool@.len() ==> #[trigger] pool@[j] < keys.len(),
                forall|j: int| 0 <= j < k ==> !key_lt(keys@, #[trigger] pool@[j], pool@[best as int]),
            decreases pool@.len() - k,
        {
            if key_before(keys, pool[k], pool[best]) {
                proof {
                    assert forall|j: int| 0 <= j <= k implies !key_lt(keys@, #[trigger] pool@[j], pool@[k as int]) by {
                        if j < k {
                            if key_lt(keys@, pool@[j], pool@[k as int]) {
                                lemma_key_transitive(keys@, pool@[j], pool@[k as int], pool@[best as int]);
                            }
                        } else {
                            lemma_key_asymmetric(keys@, pool@[k as int], pool@[k as int]);
                        }
                    }
                }
                best = k;
            }
            k = k + 1;
        }
        let ghost old_pool = pool@;
        let ghost old_out = out@;
        let x = pool.remove(best);
        proof {
            lemma_remove_no_dup(old_pool, best as int);
            assert(pool@ == old_pool.remove(best as int));
            assert forall|j: int| 0 <= j < pool@.len() implies key_lt(keys@, x, #[trigger] pool@[j]) by {
                let j2 = if j < best { j } else { j + 1 };
                assert(pool@[j] == old_pool[j2]);
                assert(pool@[j] != x);
                lemma_key_total(keys@, x, pool@[j]);
            }
        }
        out.push(x);
        proof {
            assert(out@ == old_out.push(x));
            assert(old_out.push(x).to_multiset() =~= old_out.to_multiset().insert(x));
            assert(old_pool.remove(best as int).to_multiset() =~= old_pool.to_multiset().remove(x));
            assert(out@.to_multiset().add(pool@.to_multiset()) =~= orig.to_multiset());
            assert forall|i: int, j: int| 0 <= i < j < out@.len() implies key_lt(keys@, #[trigger] out@[i], #[trigger] out@[j]) by {
                if j == out@.len() - 1 {
                    assert(out@[i] == old_out[i]);
                    let bj = best as int;
                    assert(old_pool[bj] == x);
                } else {
                    assert(out@[i] == old_out[i]);
                    assert(out@[j] == old_out[j]);
                }
            }
            assert forall|i: int, j: int| 0 <= i < out@.len() && 0 <= j < pool@.len() implies key_lt(keys@, #[trigger] out@[i], #[trigger] pool@[j]) by {
                let j2 = if j < best { j } else { j + 1 };
                assert(pool@[j] == old_pool[j2]);
                if i < old_out.len() {
                    assert(out@[i] == old_out[i]);
                }
            }
        }
    }
    proof {
        assert(pool@.to_multiset() =~= Multiset::<usize>::empty());
        assert(out@.to_multiset().add(Multiset::<usize>::empty()) =~= out@.to_multiset());
    }
    out
}

/// Order of positions by a numeric key, ties by position.
pub open spec fn id_lt(keys: Seq<u64>, a: usize, b: usize) -> bool {
    keys[a as int] < keys[b as int] || (keys[a as int] == keys[b as int] && a < b)
}

/// Whether the positions are in strictly increasing (key, position) order.
pub open spec fn id_sorted(keys: Seq<u64>, s: Seq<usize>) -> bool {
    forall|i: int, j: int| 0 <= i < j < s.len() ==> id_lt(keys, #[trigger] s[i], #[trigger] s[j])
}

/// All positions of `keys`, each once, ordered by key and, among equal
/// keys, by position: the order of a stable sort by key.
pub fn positions_by_key(keys: &Vec<u64>) -> (r: Vec<usize>)
    ensures
        r@.len() == keys@.len(),
        r@.no_duplicates(),
        forall|k: int| 0 <= k < r@.len() ==> #[trigger] r@[k] < keys@.len(),
        id_sorted(keys@, r@),
{
    let n = keys.len();
    let mut out: Vec<usize> = Vec::new();
    let mut i: usize = 0;
    while i < n
        invariant
            i <= n == keys@.len(),
            out@.len() == i,
            out@.no_duplicates(),
            forall|k: int| 0 <= k < out@.len() ==> #[trigger] out@[k] < i,
            id_sorted(keys@, out@),
        decreases n - i,
    {
        let mut p: usize = out.len();
        while p > 0 && keys[out[p - 1]] > keys[i]
            invariant
                p <= out@.len() == i < n == keys@.len(),
                forall|k: int| 0 <= k < out@.len() ==> #[trigger] out@[k] < i,
                forall|j: int| p <= j < out@.len() ==> keys@[#[trigger] out@[j] as int] > keys@[i as int],
            decreases p,
        {
            p = p - 1;
        }
        let ghost before = out@;
        out.insert(p, i);
        proof {
            assert(out@ == before.insert(p as int, i));
            assert forall|a: int, b: int| 0 <= a < b < out@.len() implies id_lt(keys@, #[trigger] out@[a], #[trigger] out@[b]) by {
                if b < p {
                    assert(out@[a] == before[a] && out@[b] == before[b]);
                } else if b == p {
                    assert(out@[a] == before[a]);
                    assert(keys@[before[p - 1] as int] <= keys@[i as int]);
                    if a < p - 1 {
                        assert(id_lt(keys@, before[a], before[p - 1]));
                    }
                } else if a == p {
                    assert(out@[b] == before[b - 1]);
                } else if a < p {
                    assert(out@[a] == before[a] && out@[b] == before[b - 1]);
                } else {
                    assert(out@[a] == before[a - 1] && out@[b] == before[b - 1]);
                }
            }
            assert forall|a: int, b: int| 0 <= a < out@.len() && 0 <= b < out@.len() && a != b implies out@[a] != out@[b] by {
                let a2 = if a < p { a } else { a - 1 };
                let b2 = if b < p { b } else { b - 1 };
                if a != p && b != p {
                    assert(out@[a] == before[a2] && out@[b] == before[b2]);
                } else if a == p {
                    assert(out@[b] == before[b2]);
                } else {
                    assert(out@[a] == before[a2]);
                }
            }
            assert forall|k: int| 0 <= k < out@.len() implies #[trigger] out@[k] < i + 1 by {
                if k < p { assert(out@[k] == before[k]); } else if k > p { assert(out@[k] == before[k - 1]); }
            }
        }
        i = i + 1;
    }
    out
}

/// The positions of the texts that share one key, in increasing order.
pub struct KeyGroup {
    pub key: String,
    pub positions: Vec<usize>,
}

/// Group `g` holds positions of texts equal to its key, in increasing
/// order, all below `n`, and at least one.
pub open spec fn group_ok(keys: Seq<String>, n: int, g: KeyGroup) -> bool {
    &&& g.positions@.len() > 0
    &&& forall|k: int| 0 <= k < g.positions@.len() ==> (#[trigger] g.positions@[k]) < n && keys[g.positions@[k] as int]@ == g.key@
    &&& forall|a: int, b: int| 0 <= a < b < g.positions@.len() ==> g.positions@[a] < g.positions@[b]
}

/// Whether position `i` is in one of the groups.
pub open spec fn grouped(groups: Seq<KeyGroup>, i: int) -> bool {
    exists|g: int, k: int| 0 <= g < groups.len() && 0 <= k < groups[g].positions@.len() && (#[trigger] groups[g].positions@[k]) == i
}

/// The positions of the texts grouped by text, the groups in text order, as
/// a `BTreeMap` from key to the list of positions would hold them.
#[verifier::rlimit(40)]
pub fn group_positions(keys: &Vec<String>) -> (r: Vec<KeyGroup>)
    ensures
        forall|a: int, b: int| 0 <= a < b < r@.len() ==> text_lt(r@[a].key@, r@[b].key@),
        forall|g: int| 0 <= g < r@.len() ==> group_ok(keys@, keys@.len() as int, #[trigger] r@[g]),
        forall|i: int| 0 <= i < keys@.len() ==> #[trigger] grouped(r@, i),
{
    let mut groups: Vec<KeyGroup> = Vec::new();
    let mut i: usize = 0;
    while i < keys.len()
        invariant
            i <= keys@.len(),
            forall|a: int, b: int| 0 <= a < b < groups@.len() ==> text_lt(groups@[a].key@, groups@[b].key@),
            forall|g: int| 0 <= g < groups@.len() ==> group_ok(keys@, i as int, #[trigger] groups@[g]),
            forall|j: int| 0 <= j < i ==> #[trigger] grouped(groups@, j),
        decreases keys.len() - i,
    {
        let ghost before = groups@;
        let ghost k = keys@[i as int]@;
        let key = chars_of(keys[i].as_str());
        let mut p: usize = 0;
        while p < groups.len() && text_before(&chars_of(groups[p].key.as_str()), &key)
            invariant
                p <= groups@.len(),
                groups@ == before,
                key@ == k,
                forall|q: int| 0 <= q < p ==> text_lt((#[trigger] groups@[q]).key@, k),
            decreases groups.len() - p,
        {
            p = p + 1;
        }
        if p < groups.len() && crate::text::str_eq(groups[p].key.as_str(), keys[i].as_str()) {
            let mut positions: Vec<usize> = Vec::new();
            let mut m: usize = 0;
            while m < groups[p].positions.len()
                invariant
                    p < groups@.len(),
                    groups@ == before,
                    m <= groups@[p as int].positions@.len(),
                    positions@ == groups@[p as int].positions@.take(m as int),
                decreases groups@[p as int].positions@.len() - m,
            {
                positions.push(groups[p].positions[m]);
                proof { assert(groups@[p as int].positions@.take(m as int + 1) =~= groups@[p as int].positions@.take(m as int).push(groups@[p as int].positions@[m as int])); }
                m = m + 1;
            }
            proof { assert(groups@[p as int].positions@.take(m as int) =~= groups@[p as int].positions@); }
            positions.push(i);
            let updated = KeyGroup { key: groups[p].key.clone(), positions };
            groups.set(p, updated);
            proof {
                assert forall|g: int| 0 <= g < groups@.len() implies group_ok(keys@, i as int + 1, #[trigger] groups@[g]) by {
                    if g != p as int {
                        assert(groups@[g] == before[g]);
                    } else {
                        assert(group_ok(keys@, i as int, before[g]));
                        let ps = groups@[g].positions@;
                        assert(ps == before[g].positions@.push(i));
                        assert forall|a: int, b: int| 0 <= a < b < ps.len() implies ps[a] < ps[b] by {
                            if b == ps.len() - 1 {
                                assert(before[g].positions@[a] < i);
                            }
                        }
                    }
                }
                assert forall|a: int, b: int| 0 <= a < b < groups@.len() implies text_lt(groups@[a].key@, groups@[b].key@) by {
                    assert(groups@[a].key@ == before[a].key@);
                    assert(groups@[b].key@ == before[b].key@);
                }
                assert forall|j: int| 0 <= j < i + 1 implies #[trigger] grouped(groups@, j) by {
                    if j < i {
                        assert(grouped(before, j));
                        let (g, kk) = choose|g: int, kk: int| 0 <= g < before.len() && 0 <= kk < before[g].positions@.len() && (#[trigger] before[g].positions@[kk]) == j;
                        assert(groups@[g].positions@[kk] == j);
                    } else {
                        let last = groups@[p as int].positions@.len() - 1;
                        assert(groups@[p as int].positions@[last] == j);
                    }
                }
            }
        } else {
            proof {
                if p < before.len() {
                    lemma_text_total(before[p as int].key@, k);
                }
            }
            let mut positions: Vec<usize> = Vec::new();
            positions.push(i);
            groups.insert(p, KeyGroup { key: keys[i].clone(), positions });
            proof {
                assert forall|a: int, b: int| 0 <= a < b < groups@.len() implies text_lt(groups@[a].key@, groups@[b].key@) by {
                    if b < p {
                    } else if b == p {
                    } else if a < p {
                        assert(groups@[b] == before[b - 1]);
                        if b - 1 > p {
                            assert(text_lt(before[p as int].key@, before[b - 1].key@));
                            lemma_text_transitive(k, before[p as int].key@, before[b - 1].key@);
                        }
                        lemma_text_transitive(before[a].key@, k, before[b - 1].key@);
                    } else if a == p {
                        assert(groups@[b] == before[b - 1]);
                        if b - 1 > p {
                            assert(text_lt(before[p as int].key@, before[b - 1].key@));
                            lemma_text_transitive(k, before[p as int].key@, before[b - 1].key@);
                        }
                    } else {
                        assert(groups@[a] == before[a - 1]);
                        assert(groups@[b] == before[b - 1]);
                    }
                }
                assert forall|g: int| 0 <= g < groups@.len() implies group_ok(keys@, i as int + 1, #[trigger] groups@[g]) by {
                    if g < p { assert(groups@[g] == before[g]); } else if g > p { assert(groups@[g] == before[g - 1]); }
                }
                assert forall|j: int| 0 <= j < i + 1 implies #[trigger] grouped(groups@, j) by {
                    if j < i {
                        assert(grouped(before, j));
                        let (g, kk) = choose|g: int, kk: int| 0 <= g < before.len() && 0 <= kk < before[g].positions@.len() && (#[trigger] before[g].positions@[kk]) == j;
                        if g < p { assert(groups@[g] == before[g]); assert(groups@[g].positions@[kk] == j); }
                        else { assert(groups@[g + 1] == before[g]); assert(groups@[g + 1].positions@[kk] == j); }
                    } else {
                        assert(groups@[p as int].positions@[0] == j);
                    }
                }
            }
        }
        i = i + 1;
    }
    groups
}

} // verus!
