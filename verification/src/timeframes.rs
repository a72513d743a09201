//! Candle timeframes: normalizing their spellings, looking up the aggregate
//! tables, and reading comma-separated timeframe lists.
use vstd::prelude::*;
use vstd::string::StringExecFns;
use crate::text::{
    ascii_lower, chars_of, eq_lit, is_ascii_upper, lower_chars, push_all, slice_chars, string_of, trim,
    trim_chars,
};
use crate::options::lemma_folded_plain;

verus! {

/// `str::replace(pattern, with)`: leftmost non-overlapping occurrences replaced.
pub open spec fn replace_all(s: Seq<char>, pat: Seq<char>, with: Seq<char>) -> Seq<char>
    decreases s.len(),
{
    if pat.len() == 0 || s.len() < pat.len() {
        s
    } else if s.take(pat.len() as int) == pat {
        with + replace_all(s.skip(pat.len() as int), pat, with)
    } else {
        seq![s[0]] + replace_all(s.drop_first(), pat, with)
    }
}

pub open spec fn is_timeframe_filler(c: char) -> bool {
    c == ' ' || c == '_' || c == '-'
}

/// `s.replace([' ', '_', '-'], "")`.
pub open spec fn drop_fillers(s: Seq<char>) -> Seq<char> {
    s.filter(|c: char| !is_timeframe_filler(c))
}

/// A timeframe spelling reduced to its short form: `"15 Minutes"` becomes `15m`.
pub open spec fn timeframe_text(s: Seq<char>) -> Seq<char> {
    let a = drop_fillers(ascii_lower(trim(s)));
    let b = replace_all(a, "minutes"@, "m"@);
    let c = replace_all(b, "minute"@, "m"@);
    let d = replace_all(c, "mins"@, "m"@);
    let e = replace_all(d, "min"@, "m"@);
    let f = replace_all(e, "hours"@, "h"@);
    let g = replace_all(f, "hour"@, "h"@);
    let h = replace_all(g, "hrs"@, "h"@);
    replace_all(h, "hr"@, "h"@)
}

proof fn lemma_replace_step(s: Seq<char>, i: int, pat: Seq<char>, with: Seq<char>)
    requires
        pat.len() > 0,
        0 <= i < s.len(),
        i + pat.len() > s.len() || s.subrange(i, i + pat.len()) != pat,
    ensures
        replace_all(s.skip(i), pat, with) == seq![s[i]] + replace_all(s.skip(i + 1), pat, with),
{
    let t = s.skip(i);
    assert(t.drop_first() =~= s.skip(i + 1));
    if t.len() >= pat.len() {
        assert(t.take(pat.len() as int) =~= s.subrange(i, i + pat.len()));
    }
}

pub fn matches_at(s: &Vec<char>, i: usize, pat: &Vec<char>) -> (r: bool)
    requires i <= s.len(),
    ensures r == (i + pat.len() <= s.len() && s@.subrange(i as int, i + pat.len()) == pat@),
{
    if pat.len() > s.len() - i {
        return false;
    }
    let mut k: usize = 0;
    while k < pat.len()
        invariant
            i + pat.len() <= s.len(),
            k <= pat.len(),
            forall|j: int| 0 <= j < k ==> s@[i + j] == pat@[j],
        decreases pat.len() - k,
    {
        if s[i + k] != pat[k] {
            proof { assert(s@.subrange(i as int, i + pat.len())[k as int] != pat@[k as int]); }
            return false;
        }
        k = k + 1;
    }
    assert(s@.subrange(i as int, i + pat.len()) =~= pat@);
    true
}

/// `str::replace` on character vectors.
pub fn replace_chars(s: &Vec<char>, pat: &str, with: &str) -> (r: Vec<char>)
    ensures r@ == replace_all(s@, pat@, with@),
{
    let p = chars_of(pat);
    let w = chars_of(with);
    if p.len() == 0 {
        return slice_chars(s, 0, s.len());
    }
    let mut r: Vec<char> = Vec::new();
    let mut i: usize = 0;
    proof {
        assert(s@.skip(0) =~= s@);
        assert(r@ + replace_all(s@, pat@, with@) =~= replace_all(s@, pat@, with@));
    }
    while i < s.len()
        invariant
            p@ == pat@,
            w@ == with@,
            p@.len() > 0,
            i <= s.len(),
            r@ + replace_all(s@.skip(i as int), pat@, with@) == replace_all(s@, pat@, with@),
        decreases s.len() - i,
    {
        let ghost before = r@;
        if matches_at(s, i, &p) {
            push_all(&mut r, &w);
            proof {
                let t = s@.skip(i as int);
                assert(t.take(p@.len() as int) =~= s@.subrange(i as int, i + p@.len()));
                assert(t.skip(p@.len() as int) =~= s@.skip(i + p@.len()));
                assert(r@ + replace_all(s@.skip(i + p@.len()), pat@, with@) =~= before + replace_all(t, pat@, with@));
            }
            i = i + p.len();
        } else {
            r.push(s[i]);
            proof {
                lemma_replace_step(s@, i as int, pat@, with@);
                assert(r@ + replace_all(s@.skip(i + 1), pat@, with@) =~= before + replace_all(s@.skip(i as int), pat@, with@));
            }
            i = i + 1;
        }
    }
    proof {
        assert(s@.skip(s@.len() as int) =~= Seq::<char>::empty());
        assert(r@ + Seq::<char>::empty() =~= r@);
    }
    r
}

fn drop_filler_chars(s: &Vec<char>) -> (r: Vec<char>)
    ensures r@ == drop_fillers(s@),
{
    let mut r: Vec<char> = Vec::new();
    let mut i: usize = 0;
    while i < s.len()
        invariant
            i <= s.len(),
            r@ == drop_fillers(s@.take(i as int)),
        decreases s.len() - i,
    {
        let c = s[i];
        proof {
            assert(s@.take(i + 1).drop_last() =~= s@.take(i as int));
            reveal_with_fuel(Seq::filter, 1);
        }
        if !(c == ' ' || c == '_' || c == '-') {
            r.push(c);
        }
        i = i + 1;
        assert(r@ =~= drop_fillers(s@.take(i as int)));
    }
    assert(s@.take(s@.len() as int) =~= s@);
    r
}

/// Reduces a timeframe spelling to its short form (`"1 hour"` is `1h`).
pub fn normalize_timeframe_text(value: &str) -> (r: String)
    ensures r@ == timeframe_text(value@),
{
    let a = drop_filler_chars(&lower_chars(&trim_chars(&chars_of(value))));
    let b = replace_chars(&a, "minutes", "m");
    let c = replace_chars(&b, "minute", "m");
    let d = replace_chars(&c, "mins", "m");
    let e = replace_chars(&d, "min", "m");
    let f = replace_chars(&e, "hours", "h");
    let g = replace_chars(&f, "hour", "h");
    let h = replace_chars(&g, "hrs", "h");
    let i = replace_chars(&h, "hr", "h");
    string_of(&i)
}

/// One aggregate candle timeframe and the table that holds it.
#[derive(Clone, Copy)]
pub struct TimeframeSpec {
    pub label: &'static str,
    pub table_name: &'static str,
    pub index_prefix: &'static str,
    pub minutes: i64,
}

/// The label of the `i`-th aggregate timeframe.
pub open spec fn timeframe_label(i: int) -> Seq<char> {
    if i == 0 { "2m"@ } else if i == 1 { "3m"@ } else if i == 2 { "4m"@ } else if i == 3 { "5m"@ }
    else if i == 4 { "6m"@ } else if i == 5 { "7m"@ } else if i == 6 { "8m"@ } else if i == 7 { "9m"@ }
    else if i == 8 { "10m"@ } else if i == 9 { "11m"@ } else if i == 10 { "12m"@ }
    else if i == 11 { "13m"@ } else if i == 12 { "14m"@ } else if i == 13 { "15m"@ }
    else if i == 14 { "30m"@ } else if i == 15 { "1h"@ } else if i == 16 { "4h"@ }
    else if i == 17 { "12h"@ } else { "1d"@ }
}

/// The length in minutes of the `i`-th aggregate timeframe.
pub open spec fn timeframe_minutes(i: int) -> int {
    if i <= 12 { i + 2 } else if i == 13 { 15 } else if i == 14 { 30 } else if i == 15 { 60 }
    else if i == 16 { 240 } else if i == 17 { 720 } else { 1440 }
}

/// Whether a spec holds the `i`-th aggregate timeframe: its label, its table
/// `futures_contract_<label>_candles`, its index prefix `futures_<label>`.
pub open spec fn is_timeframe_entry(t: TimeframeSpec, i: int) -> bool {
    &&& 0 <= i < 19
    &&& t.label@ == timeframe_label(i)
    &&& t.table_name@ == "futures_contract_"@ + timeframe_label(i) + "_candles"@
    &&& t.index_prefix@ == "futures_"@ + timeframe_label(i)
    &&& t.minutes == timeframe_minutes(i)
}

/// The aggregate timeframe that a normalized spelling names.
pub open spec fn timeframe_index(n: Seq<char>) -> Option<int> {
    if n == "2"@ || n == "2m"@ { Some(0) } else if n == "3"@ || n == "3m"@ { Some(1) }
    else if n == "4"@ || n == "4m"@ { Some(2) } else if n == "5"@ || n == "5m"@ { Some(3) }
    else if n == "6"@ || n == "6m"@ { Some(4) } else if n == "7"@ || n == "7m"@ { Some(5) }
    else if n == "8"@ || n == "8m"@ { Some(6) } else if n == "9"@ || n == "9m"@ { Some(7) }
    else if n == "10"@ || n == "10m"@ { Some(8) } else if n == "11"@ || n == "11m"@ { Some(9) }
    else if n == "12"@ || n == "12m"@ { Some(10) } else if n == "13"@ || n == "13m"@ { Some(11) }
    else if n == "14"@ || n == "14m"@ { Some(12) } else if n == "15"@ || n == "15m"@ { Some(13) }
    else if n == "30"@ || n == "30m"@ { Some(14) }
    else if n == "60"@ || n == "60m"@ || n == "1h"@ { Some(15) }
    else if n == "240"@ || n == "240m"@ || n == "4h"@ { Some(16) }
    else if n == "720"@ || n == "720m"@ || n == "12h"@ { Some(17) }
    else if n == "1440"@ || n == "1440m"@ || n == "24h"@ || n == "1d"@ || n == "d"@ || n == "day"@ || n == "daily"@ { Some(18) }
    else { None }
}

fn entry(label: &'static str, table_name: &'static str, index_prefix: &'static str, minutes: i64) -> (t: TimeframeSpec)
    ensures t.label == label, t.table_name == table_name, t.index_prefix == index_prefix, t.minutes == minutes,
{
    TimeframeSpec { label, table_name, index_prefix, minutes }
}

/// The `i`-th aggregate timeframe.
pub fn timeframe_at(i: usize) -> (t: TimeframeSpec)
    requires i < 19,
    ensures is_timeframe_entry(t, i as int),
{
    proof {
        reveal_strlit("2m"); reveal_strlit("3m"); reveal_strlit("4m"); reveal_strlit("5m");
        reveal_strlit("6m"); reveal_strlit("7m"); reveal_strlit("8m"); reveal_strlit("9m");
        reveal_strlit("10m"); reveal_strlit("11m"); reveal_strlit("12m"); reveal_strlit("13m");
        reveal_strlit("14m"); reveal_strlit("15m"); reveal_strlit("30m"); reveal_strlit("1h");
        reveal_strlit("4h"); reveal_strlit("12h"); reveal_strlit("1d");
        reveal_strlit("futures_contract_"); reveal_strlit("_candles"); reveal_strlit("futures_");
    }
    let t = match i {
        0 => entry("2m", "futures_contract_2m_candles", "futures_2m", 2),
        1 => entry("3m", "futures_contract_3m_candles", "futures_3m", 3),
        2 => entry("4m", "futures_contract_4m_candles", "futures_4m", 4),
        3 => entry("5m", "futures_contract_5m_candles", "futures_5m", 5),
        4 => entry("6m", "futures_contract_6m_candles", "futures_6m", 6),
        5 => entry("7m", "futures_contract_7m_candles", "futures_7m", 7),
        6 => entry("8m", "futures_contract_8m_candles", "futures_8m", 8),
        7 => entry("9m", "futures_contract_9m_candles", "futures_9m", 9),
        8 => entry("10m", "futures_contract_10m_candles", "futures_10m", 10),
        9 => entry("11m", "futures_contract_11m_candles", "futures_11m", 11),
        10 => entry("12m", "futures_contract_12m_candles", "futures_12m", 12),
        11 => entry("13m", "futures_contract_13m_candles", "futures_13m", 13),
        12 => entry("14m", "futures_contract_14m_candles", "futures_14m", 14),
        13 => entry("15m", "futures_contract_15m_candles", "futures_15m", 15),
        14 => entry("30m", "futures_contract_30m_candles", "futures_30m", 30),
        15 => entry("1h", "futures_contract_1h_candles", "futures_1h", 60),
        16 => entry("4h", "futures_contract_4h_candles", "futures_4h", 240),
        17 => entry("12h", "futures_contract_12h_candles", "futures_12h", 720),
        _ => entry("1d", "futures_contract_1d_candles", "futures_1d", 1440),
    };
    proof {
        reveal_strlit("futures_contract_2m_candles"); reveal_strlit("futures_2m");
        reveal_strlit("futures_contract_3m_candles"); reveal_strlit("futures_3m");
        reveal_strlit("futures_contract_4m_candles"); reveal_strlit("futures_4m");
        reveal_strlit("futures_contract_5m_candles"); reveal_strlit("futures_5m");
        reveal_strlit("futures_contract_6m_candles"); reveal_strlit("futures_6m");
        reveal_strlit("futures_contract_7m_candles"); reveal_strlit("futures_7m");
        reveal_strlit("futures_contract_8m_candles"); reveal_strlit("futures_8m");
        reveal_strlit("futures_contract_9m_candles"); reveal_strlit("futures_9m");
        reveal_strlit("futures_contract_10m_candles"); reveal_strlit("futures_10m");
        reveal_strlit("futures_contract_11m_candles"); reveal_strlit("futures_11m");
        reveal_strlit("futures_contract_12m_candles"); reveal_strlit("futures_12m");
        reveal_strlit("futures_contract_13m_candles"); reveal_strlit("futures_13m");
        reveal_strlit("futures_contract_14m_candles"); reveal_strlit("futures_14m");
        reveal_strlit("futures_contract_15m_candles"); reveal_strlit("futures_15m");
        reveal_strlit("futures_contract_30m_candles"); reveal_strlit("futures_30m");
        reveal_strlit("futures_contract_1h_candles"); reveal_strlit("futures_1h");
        reveal_strlit("futures_contract_4h_candles"); reveal_strlit("futures_4h");
        reveal_strlit("futures_contract_12h_candles"); reveal_strlit("futures_12h");
        reveal_strlit("futures_contract_1d_candles"); reveal_strlit("futures_1d");
        assert(t.table_name@ =~= "futures_contract_"@ + timeframe_label(i as int) + "_candles"@);
        assert(t.index_prefix@ =~= "futures_"@ + timeframe_label(i as int));
    }
    t
}

fn index_of_normalized(n: &Vec<char>) -> (r: Option<usize>)
    ensures
        match timeframe_index(n@) {
            Some(i) => r == Some(i as usize),
            None => r is None,
        },
{
    if eq_lit(n, "2") || eq_lit(n, "2m") { Some(0) }
    else if eq_lit(n, "3") || eq_lit(n, "3m") { Some(1) }
    else if eq_lit(n, "4") || eq_lit(n, "4m") { Some(2) }
    else if eq_lit(n, "5") || eq_lit(n, "5m") { Some(3) }
    else if eq_lit(n, "6") || eq_lit(n, "6m") { Some(4) }
    else if eq_lit(n, "7") || eq_lit(n, "7m") { Some(5) }
    else if eq_lit(n, "8") || eq_lit(n, "8m") { Some(6) }
    else if eq_lit(n, "9") || eq_lit(n, "9m") { Some(7) }
    else if eq_lit(n, "10") || eq_lit(n, "10m") { Some(8) }
    else if eq_lit(n, "11") || eq_lit(n, "11m") { Some(9) }
    else if eq_lit(n, "12") || eq_lit(n, "12m") { Some(10) }
    else if eq_lit(n, "13") || eq_lit(n, "13m") { Some(11) }
    else if eq_lit(n, "14") || eq_lit(n, "14m") { Some(12) }
    else if eq_lit(n, "15") || eq_lit(n, "15m") { Some(13) }
    else if eq_lit(n, "30") || eq_lit(n, "30m") { Some(14) }
    else if eq_lit(n, "60") || eq_lit(n, "60m") || eq_lit(n, "1h") { Some(15) }
    else if eq_lit(n, "240") || eq_lit(n, "240m") || eq_lit(n, "4h") { Some(16) }
    else if eq_lit(n, "720") || eq_lit(n, "720m") || eq_lit(n, "12h") { Some(17) }
    else if eq_lit(n, "1440") || eq_lit(n, "1440m") || eq_lit(n, "24h") || eq_lit(n, "1d")
        || eq_lit(n, "d") || eq_lit(n, "day") || eq_lit(n, "daily") { Some(18) }
    else { None }
}

/// The aggregate timeframe a spelling names, if any.
pub fn parse_timeframe(value: &str) -> (r: Option<TimeframeSpec>)
    ensures
        match timeframe_index(timeframe_text(value@)) {
            Some(i) => r matches Some(t) && is_timeframe_entry(t, i),
            None => r is None,
        },
{
    let n = normalize_timeframe_text(value);
    let nc = chars_of(n.as_str());
    match index_of_normalized(&nc) {
        Some(i) => Some(timeframe_at(i)),
        None => None,
    }
}

/// The candle table that an inspected timeframe reads: the aggregate table of
/// the normalized spelling, the one-minute table for anything unknown.
pub open spec fn inspect_table_text(value: Seq<char>) -> Seq<char> {
    let n = timeframe_text(value);
    if n == "3"@ || n == "3m"@ { "futures_contract_3m_candles"@ }
    else if n == "5"@ || n == "5m"@ { "futures_contract_5m_candles"@ }
    else if n == "15"@ || n == "15m"@ { "futures_contract_15m_candles"@ }
    else if n == "30"@ || n == "30m"@ { "futures_contract_30m_candles"@ }
    else if n == "60"@ || n == "60m"@ || n == "1h"@ { "futures_contract_1h_candles"@ }
    else if n == "240"@ || n == "240m"@ || n == "4h"@ { "futures_contract_4h_candles"@ }
    else if n == "720"@ || n == "720m"@ || n == "12h"@ { "futures_contract_12h_candles"@ }
    else if n == "1440"@ || n == "1440m"@ || n == "24h"@ || n == "1d"@ || n == "d"@ || n == "day"@ || n == "daily"@ { "futures_contract_1d_candles"@ }
    else { "futures_contract_1m_candles"@ }
}

/// The candle table for an inspected timeframe.
pub fn futures_candle_table_for_timeframe(timeframe: &str) -> (r: String)
    ensures r@ == inspect_table_text(timeframe@),
{
    let s = normalize_timeframe_text(timeframe);
    let n = chars_of(s.as_str());
    if eq_lit(&n, "3") || eq_lit(&n, "3m") { String::from_str("futures_contract_3m_candles") }
    else if eq_lit(&n, "5") || eq_lit(&n, "5m") { String::from_str("futures_contract_5m_candles") }
    else if eq_lit(&n, "15") || eq_lit(&n, "15m") { String::from_str("futures_contract_15m_candles") }
    else if eq_lit(&n, "30") || eq_lit(&n, "30m") { String::from_str("futures_contract_30m_candles") }
    else if eq_lit(&n, "60") || eq_lit(&n, "60m") || eq_lit(&n, "1h") { String::from_str("futures_contract_1h_candles") }
    else if eq_lit(&n, "240") || eq_lit(&n, "240m") || eq_lit(&n, "4h") { String::from_str("futures_contract_4h_candles") }
    else if eq_lit(&n, "720") || eq_lit(&n, "720m") || eq_lit(&n, "12h") { String::from_str("futures_contract_12h_candles") }
    else if eq_lit(&n, "1440") || eq_lit(&n, "1440m") || eq_lit(&n, "24h") || eq_lit(&n, "1d")
        || eq_lit(&n, "d") || eq_lit(&n, "day") || eq_lit(&n, "daily") { String::from_str("futures_contract_1d_candles") }
    else { String::from_str("futures_contract_1m_candles") }
}

/// `str::split(sep)`: the pieces between separators, empty pieces kept.
pub open spec fn split_on(s: Seq<char>, sep: char) -> Seq<Seq<char>>
    decreases s.len(),
{
    if s.len() == 0 {
        seq![Seq::<char>::empty()]
    } else {
        let init = split_on(s.drop_last(), sep);
        if s.last() == sep {
            init.push(Seq::<char>::empty())
        } else {
            init.update(init.len() - 1, init.last().push(s.last()))
        }
    }
}

pub proof fn lemma_split_nonempty(s: Seq<char>, sep: char)
    ensures split_on(s, sep).len() >= 1,
    decreases s.len(),
{
    if s.len() > 0 {
        lemma_split_nonempty(s.drop_last(), sep);
    }
}

/// The pieces of `v` between the separators `sep`.
pub fn split_chars(v: &Vec<char>, sep: char) -> (r: Vec<Vec<char>>)
    ensures
        r@.len() == split_on(v@, sep).len(),
        forall|k: int| 0 <= k < r@.len() ==> #[trigger] r@[k]@ == split_on(v@, sep)[k],
{
    let mut pieces: Vec<Vec<char>> = Vec::new();
    let mut cur: Vec<char> = Vec::new();
    let mut i: usize = 0;
    proof { assert(v@.take(0) =~= Seq::<char>::empty()); }
    while i < v.len()
        invariant
            i <= v.len(),
            pieces@.len() + 1 == split_on(v@.take(i as int), sep).len(),
            forall|k: int| 0 <= k < pieces@.len() ==> #[trigger] pieces@[k]@ == split_on(v@.take(i as int), sep)[k],
            cur@ == split_on(v@.take(i as int), sep).last(),
        decreases v.len() - i,
    {
        let c = v[i];
        proof {
            assert(v@.take(i + 1).drop_last() =~= v@.take(i as int));
            lemma_split_nonempty(v@.take(i as int), sep);
        }
        if c == sep {
            pieces.push(cur);
            cur = Vec::new();
        } else {
            cur.push(c);
        }
        i = i + 1;
    }
    proof { assert(v@.take(v@.len() as int) =~= v@); }
    pieces.push(cur);
    pieces
}

/// Which timeframe table a list is read against.
#[derive(Clone, Copy, PartialEq, Eq)]
pub enum TimeframeTable {
    /// The aggregate futures candle tables.
    Aggregates,
    /// The market-trend timeframes.
    MarketTrend,
}

/// The market-trend timeframe that a normalized spelling names.
pub open spec fn trend_index(n: Seq<char>) -> Option<int> {
    if n == "5"@ || n == "5m"@ { Some(0) }
    else if n == "15"@ || n == "15m"@ { Some(1) }
    else if n == "60"@ || n == "60m"@ || n == "1h"@ { Some(2) }
    else { None }
}

pub open spec fn table_index(table: TimeframeTable, n: Seq<char>) -> Option<int> {
    match table {
        TimeframeTable::Aggregates => timeframe_index(n),
        TimeframeTable::MarketTrend => trend_index(n),
    }
}

/// Reading a list of timeframes, piece by piece: blank pieces are skipped, a
/// piece that names no timeframe stops the reading with that piece, and a
/// timeframe already listed is not listed twice.
pub open spec fn gather_timeframes(table: TimeframeTable, pieces: Seq<Seq<char>>, acc: Seq<int>) -> Result<Seq<int>, Seq<char>>
    decreases pieces.len(),
{
    if pieces.len() == 0 {
        Ok(acc)
    } else {
        let t = trim(pieces[0]);
        if t.len() == 0 {
            gather_timeframes(table, pieces.drop_first(), acc)
        } else {
            match table_index(table, timeframe_text(t)) {
                None => Err(t),
                Some(i) => gather_timeframes(table, pieces.drop_first(), if acc.contains(i) { acc } else { acc.push(i) }),
            }
        }
    }
}

pub proof fn lemma_gather_in_range(pieces: Seq<Seq<char>>, acc: Seq<int>)
    requires forall|k: int| 0 <= k < acc.len() ==> 0 <= #[trigger] acc[k] < 19,
    ensures
        gather_timeframes(TimeframeTable::Aggregates, pieces, acc) matches Ok(r)
            ==> forall|k: int| 0 <= k < r.len() ==> 0 <= #[trigger] r[k] < 19,
    decreases pieces.len(),
{
    if pieces.len() > 0 {
        let t = trim(pieces[0]);
        if t.len() == 0 {
            lemma_gather_in_range(pieces.drop_first(), acc);
        } else {
            match timeframe_index(timeframe_text(t)) {
                None => {}
                Some(i) => {
                    let next = if acc.contains(i) { acc } else { acc.push(i) };
                    assert forall|k: int| 0 <= k < next.len() implies 0 <= #[trigger] next[k] < 19 by {
                        if k < acc.len() { assert(next[k] == acc[k]); }
                    }
                    lemma_gather_in_range(pieces.drop_first(), next);
                }
            }
        }
    }
}

/// Why a timeframe list was refused.
#[derive(Debug)]
pub enum TimeframeListError {
    /// A piece that names no timeframe, trimmed.
    Unsupported(String),
    /// The list names no timeframe at all.
    Empty,
}

pub open spec fn timeframe_list_spec(table: TimeframeTable, raw: Seq<char>) -> Result<Seq<int>, Option<Seq<char>>> {
    match gather_timeframes(table, split_on(raw, ','), Seq::empty()) {
        Err(t) => Err(Some(t)),
        Ok(acc) => if acc.len() == 0 { Err(None) } else { Ok(acc) },
    }
}

fn lookup_index(table: TimeframeTable, n: &Vec<char>) -> (r: Option<usize>)
    ensures
        match table_index(table, n@) {
            Some(i) => r == Some(i as usize),
            None => r is None,
        },
{
    match table {
        TimeframeTable::Aggregates => index_of_normalized(n),
        TimeframeTable::MarketTrend => {
            if eq_lit(n, "5") || eq_lit(n, "5m") { Some(0) }
            else if eq_lit(n, "15") || eq_lit(n, "15m") { Some(1) }
            else if eq_lit(n, "60") || eq_lit(n, "60m") || eq_lit(n, "1h") { Some(2) }
            else { None }
        }
    }
}

fn contains_index(v: &Vec<usize>, x: usize) -> (r: bool)
    ensures r == v@.map_values(|k: usize| k as int).contains(x as int),
{
    let ghost m = v@.map_values(|k: usize| k as int);
    let mut i: usize = 0;
    while i < v.len()
        invariant
            i <= v.len(),
            m == v@.map_values(|k: usize| k as int),
            forall|j: int| 0 <= j < i ==> m[j] != x as int,
        decreases v.len() - i,
    {
        if v[i] == x {
            proof { assert(m[i as int] == x as int); }
            return true;
        }
        i = i + 1;
    }
    false
}

/// The indices of the timeframes a comma-separated list names, in the order
/// first named, or the trimmed piece that names none.
fn gather_indices(table: TimeframeTable, raw: &str) -> (r: Result<Vec<usize>, Vec<char>>)
    ensures
        match gather_timeframes(table, split_on(raw@, ','), Seq::empty()) {
            Ok(acc) => r matches Ok(v) && v@.map_values(|k: usize| k as int) == acc,
            Err(t) => r matches Err(e) && e@ == t,
        },
{
    let pieces = split_chars(&chars_of(raw), ',');
    let ghost all = split_on(raw@, ',');
    let mut acc: Vec<usize> = Vec::new();
    let mut i: usize = 0;
    proof {
        assert(all.skip(0) =~= all);
        assert(acc@.map_values(|k: usize| k as int) =~= Seq::<int>::empty());
    }
    while i < pieces.len()
        invariant
            all == split_on(raw@, ','),
            i <= pieces@.len() == all.len(),
            forall|k: int| 0 <= k < pieces@.len() ==> #[trigger] pieces@[k]@ == all[k],
            gather_timeframes(table, all, Seq::empty())
                == gather_timeframes(table, all.skip(i as int), acc@.map_values(|k: usize| k as int)),
        decreases pieces@.len() - i,
    {
        let t = trim_chars(&pieces[i]);
        let ghost rest = all.skip(i as int);
        proof {
            assert(rest[0] == pieces@[i as int]@);
            assert(rest.drop_first() =~= all.skip(i + 1));
        }
        if t.len() > 0 {
            let n = normalize_timeframe_text(string_of(&t).as_str());
            match lookup_index(table, &chars_of(n.as_str())) {
                None => {
                    proof {
                        assert(table_index(table, timeframe_text(trim(rest[0]))) is None);
                        assert(gather_timeframes(table, rest, acc@.map_values(|k: usize| k as int)) == Err::<Seq<int>, Seq<char>>(t@));
                        assert(gather_timeframes(table, split_on(raw@, ','), Seq::empty()) == Err::<Seq<int>, Seq<char>>(t@));
                    }
                    return Err(t);
                }
                Some(k) => {
                    let ghost before = acc@.map_values(|k: usize| k as int);
                    if !contains_index(&acc, k) {
                        acc.push(k);
                        proof { assert(acc@.map_values(|k: usize| k as int) =~= before.push(k as int)); }
                    }
                }
            }
        }
        i = i + 1;
    }
    proof { assert(all.skip(pieces@.len() as int) =~= Seq::<Seq<char>>::empty()); }
    Ok(acc)
}

/// The aggregate timeframes a comma-separated list names, each once, in the
/// order first named. A piece naming no timeframe, or a list naming none,
/// is refused.
pub fn requested_timeframes(raw: &str) -> (r: Result<Vec<TimeframeSpec>, TimeframeListError>)
    ensures
        match timeframe_list_spec(TimeframeTable::Aggregates, raw@) {
            Ok(idx) => r matches Ok(v) && v@.len() == idx.len()
                && forall|k: int| 0 <= k < idx.len() ==> is_timeframe_entry(#[trigger] v@[k], idx[k]),
            Err(Some(t)) => r matches Err(TimeframeListError::Unsupported(s)) && s@ == t,
            Err(None) => r matches Err(TimeframeListError::Empty),
        },
{
    match gather_indices(TimeframeTable::Aggregates, raw) {
        Err(t) => Err(TimeframeListError::Unsupported(string_of(&t))),
        Ok(idx) => {
            if idx.len() == 0 {
                return Err(TimeframeListError::Empty);
            }
            let ghost m = idx@.map_values(|k: usize| k as int);
            proof { lemma_gather_in_range(split_on(raw@, ','), Seq::empty()); }
            let mut out: Vec<TimeframeSpec> = Vec::new();
            let mut i: usize = 0;
            while i < idx.len()
                invariant
                    i <= idx.len(),
                    m == idx@.map_values(|k: usize| k as int),
                    m == gather_timeframes(TimeframeTable::Aggregates, split_on(raw@, ','), Seq::empty())->Ok_0,
                    forall|k: int| 0 <= k < m.len() ==> 0 <= #[trigger] m[k] < 19,
                    out@.len() == i,
                    forall|k: int| 0 <= k < i ==> is_timeframe_entry(#[trigger] out@[k], m[k]),
                decreases idx.len() - i,
            {
                proof { assert(m[i as int] == idx@[i as int] as int); }
                out.push(timeframe_at(idx[i]));
                i = i + 1;
            }
            Ok(out)
        }
    }
}

/// The timeframes over which market trends are computed.
#[derive(Clone, Copy, Debug, PartialEq, Eq)]
pub enum TrendTimeframe {
    FiveMinute,
    FifteenMinute,
    OneHour,
}

/// A market-trend timeframe and the candle table it reads.
#[derive(Clone, Copy)]
pub struct TrendTimeframeSpec {
    pub timeframe: TrendTimeframe,
    pub label: &'static str,
    pub source_table: &'static str,
}

/// Whether a spec holds the `i`-th market-trend timeframe.
pub open spec fn is_trend_entry(t: TrendTimeframeSpec, i: int) -> bool {
    if i == 0 {
        t.timeframe == TrendTimeframe::FiveMinute && t.label@ == "5m"@ && t.source_table@ == "futures_contract_5m_candles"@
    } else if i == 1 {
        t.timeframe == TrendTimeframe::FifteenMinute && t.label@ == "15m"@ && t.source_table@ == "futures_contract_15m_candles"@
    } else if i == 2 {
        t.timeframe == TrendTimeframe::OneHour && t.label@ == "1h"@ && t.source_table@ == "futures_contract_1h_candles"@
    } else {
        false
    }
}

/// The `i`-th market-trend timeframe.
pub fn trend_timeframe_at(i: usize) -> (t: TrendTimeframeSpec)
    requires i < 3,
    ensures is_trend_entry(t, i as int),
{
    if i == 0 {
        TrendTimeframeSpec { timeframe: TrendTimeframe::FiveMinute, label: "5m", source_table: "futures_contract_5m_candles" }
    } else if i == 1 {
        TrendTimeframeSpec { timeframe: TrendTimeframe::FifteenMinute, label: "15m", source_table: "futures_contract_15m_candles" }
    } else {
        TrendTimeframeSpec { timeframe: TrendTimeframe::OneHour, label: "1h", source_table: "futures_contract_1h_candles" }
    }
}

/// The market-trend timeframe a spelling names, if any.
pub fn parse_trend_timeframe(value: &str) -> (r: Option<TrendTimeframeSpec>)
    ensures
        match trend_index(timeframe_text(value@)) {
            Some(i) => r matches Some(t) && is_trend_entry(t, i),
            None => r is None,
        },
{
    let n = normalize_timeframe_text(value);
    match lookup_index(TimeframeTable::MarketTrend, &chars_of(n.as_str())) {
        Some(i) => Some(trend_timeframe_at(i)),
        None => None,
    }
}

pub proof fn lemma_gather_trend_in_range(pieces: Seq<Seq<char>>, acc: Seq<int>)
    requires forall|k: int| 0 <= k < acc.len() ==> 0 <= #[trigger] acc[k] < 3,
    ensures
        gather_timeframes(TimeframeTable::MarketTrend, pieces, acc) matches Ok(r)
            ==> forall|k: int| 0 <= k < r.len() ==> 0 <= #[trigger] r[k] < 3,
    decreases pieces.len(),
{
    if pieces.len() > 0 {
        let t = trim(pieces[0]);
        if t.len() == 0 {
            lemma_gather_trend_in_range(pieces.drop_first(), acc);
        } else {
            match trend_index(timeframe_text(t)) {
                None => {}
                Some(i) => {
                    let next = if acc.contains(i) { acc } else { acc.push(i) };
                    assert forall|k: int| 0 <= k < next.len() implies 0 <= #[trigger] next[k] < 3 by {
                        if k < acc.len() { assert(next[k] == acc[k]); }
                    }
                    lemma_gather_trend_in_range(pieces.drop_first(), next);
                }
            }
        }
    }
}

/// The market-trend timeframes a comma-separated list names, each once, in
/// the order first named.
pub fn requested_trend_timeframes(raw: &str) -> (r: Result<Vec<TrendTimeframeSpec>, TimeframeListError>)
    ensures
        match timeframe_list_spec(TimeframeTable::MarketTrend, raw@) {
            Ok(idx) => r matches Ok(v) && v@.len() == idx.len()
                && forall|k: int| 0 <= k < idx.len() ==> is_trend_entry(#[trigger] v@[k], idx[k]),
            Err(Some(t)) => r matches Err(TimeframeListError::Unsupported(s)) && s@ == t,
            Err(None) => r matches Err(TimeframeListError::Empty),
        },
{
    match gather_indices(TimeframeTable::MarketTrend, raw) {
        Err(t) => Err(TimeframeListError::Unsupported(string_of(&t))),
        Ok(idx) => {
            if idx.len() == 0 {
                return Err(TimeframeListError::Empty);
            }
            let ghost m = idx@.map_values(|k: usize| k as int);
            proof { lemma_gather_trend_in_range(split_on(raw@, ','), Seq::empty()); }
            let mut out: Vec<TrendTimeframeSpec> = Vec::new();
            let mut i: usize = 0;
            while i < idx.len()
                invariant
                    i <= idx.len(),
                    m == idx@.map_values(|k: usize| k as int),
                    m == gather_timeframes(TimeframeTable::MarketTrend, split_on(raw@, ','), Seq::empty())->Ok_0,
                    forall|k: int| 0 <= k < m.len() ==> 0 <= #[trigger] m[k] < 3,
                    out@.len() == i,
                    forall|k: int| 0 <= k < i ==> is_trend_entry(#[trigger] out@[k], m[k]),
                decreases idx.len() - i,
            {
                proof { assert(m[i as int] == idx@[i as int] as int); }
                out.push(trend_timeframe_at(idx[i]));
                i = i + 1;
            }
            Ok(out)
        }
    }
}

proof fn lemma_gather_distinct(table: TimeframeTable, pieces: Seq<Seq<char>>, acc: Seq<int>)
    requires acc.no_duplicates(),
    ensures gather_timeframes(table, pieces, acc) matches Ok(r) ==> r.no_duplicates(),
    decreases pieces.len(),
{
    if pieces.len() > 0 {
        let t = trim(pieces[0]);
        if t.len() == 0 {
            lemma_gather_distinct(table, pieces.drop_first(), acc);
        } else {
            match table_index(table, timeframe_text(t)) {
                None => {}
                Some(i) => {
                    let next = if acc.contains(i) { acc } else { acc.push(i) };
                    if !acc.contains(i) {
                        assert forall|a: int, b: int| 0 <= a < b < next.len() implies next[a] != next[b] by {
                            if b == acc.len() {
                                assert(acc[a] == next[a]);
                            }
                        }
                    }
                    lemma_gather_distinct(table, pieces.drop_first(), next);
                }
            }
        }
    }
}

/// A timeframe list names each timeframe once: the timeframes read from a
/// comma-separated list have no repeats.
pub proof fn lemma_timeframe_list_distinct(table: TimeframeTable, raw: Seq<char>)
    ensures timeframe_list_spec(table, raw) matches Ok(idx) ==> idx.no_duplicates(),
{
    lemma_gather_distinct(table, split_on(raw, ','), Seq::empty());
}

/// Replacing a pattern changes nothing in text that lacks the pattern's
/// second character.
proof fn lemma_replace_absent(s: Seq<char>, pat: Seq<char>, with: Seq<char>)
    requires
        pat.len() >= 2,
        forall|k: int| 0 <= k < s.len() ==> #[trigger] s[k] != pat[1],
    ensures replace_all(s, pat, with) == s,
    decreases s.len(),
{
    if s.len() >= pat.len() {
        if s.take(pat.len() as int) == pat {
            assert(s.take(pat.len() as int)[1] == s[1]);
        }
        let t = s.drop_first();
        assert forall|k: int| 0 <= k < t.len() implies #[trigger] t[k] != pat[1] by {
            assert(t[k] == s[k + 1]);
        }
        lemma_replace_absent(t, pat, with);
        assert(seq![s[0]] + t =~= s);
    }
}

proof fn lemma_drop_fillers_absent(s: Seq<char>)
    requires forall|k: int| 0 <= k < s.len() ==> !is_timeframe_filler(#[trigger] s[k]),
    ensures drop_fillers(s) == s,
    decreases s.len(),
{
    reveal(Seq::filter);
    if s.len() > 0 {
        let t = s.drop_last();
        assert forall|k: int| 0 <= k < t.len() implies !is_timeframe_filler(#[trigger] t[k]) by {
            assert(t[k] == s[k]);
        }
        lemma_drop_fillers_absent(t);
        assert(t.push(s.last()) =~= s);
    }
}

/// A character that may stand in a timeframe label.
pub open spec fn is_label_char(c: char) -> bool {
    ('0' <= c && c <= '9') || c == 'm' || c == 'h' || c == 'd'
}

proof fn lemma_label_chars(i: int)
    requires 0 <= i < 19,
    ensures
        timeframe_label(i).len() >= 2,
        forall|k: int| 0 <= k < timeframe_label(i).len() ==> is_label_char(#[trigger] timeframe_label(i)[k]),
{
    reveal_strlit("2m"); reveal_strlit("3m"); reveal_strlit("4m"); reveal_strlit("5m");
    reveal_strlit("6m"); reveal_strlit("7m"); reveal_strlit("8m"); reveal_strlit("9m");
    reveal_strlit("10m"); reveal_strlit("11m"); reveal_strlit("12m"); reveal_strlit("13m");
    reveal_strlit("14m"); reveal_strlit("15m"); reveal_strlit("30m"); reveal_strlit("1h");
    reveal_strlit("4h"); reveal_strlit("12h"); reveal_strlit("1d");
}

/// A label reduces to itself under the timeframe spelling rules.
proof fn lemma_label_text(i: int)
    requires 0 <= i < 19,
    ensures timeframe_text(timeframe_label(i)) == timeframe_label(i),
{
    let l = timeframe_label(i);
    lemma_label_chars(i);
    assert forall|k: int| 0 <= k < l.len() implies !is_ascii_upper(#[trigger] l[k]) by {
        assert(is_label_char(l[k]));
    }
    lemma_folded_plain(l);
    assert forall|k: int| 0 <= k < l.len() implies !is_timeframe_filler(#[trigger] l[k]) by {
        assert(is_label_char(l[k]));
    }
    lemma_drop_fillers_absent(l);
    reveal_strlit("minutes"); reveal_strlit("minute"); reveal_strlit("mins"); reveal_strlit("min");
    reveal_strlit("hours"); reveal_strlit("hour"); reveal_strlit("hrs"); reveal_strlit("hr");
    assert forall|k: int| 0 <= k < l.len() implies #[trigger] l[k] != 'i' && l[k] != 'o' && l[k] != 'r' by {
        assert(is_label_char(l[k]));
    }
    lemma_replace_absent(l, "minutes"@, "m"@);
    lemma_replace_absent(l, "minute"@, "m"@);
    lemma_replace_absent(l, "mins"@, "m"@);
    lemma_replace_absent(l, "min"@, "m"@);
    lemma_replace_absent(l, "hours"@, "h"@);
    lemma_replace_absent(l, "hour"@, "h"@);
    lemma_replace_absent(l, "hrs"@, "h"@);
    lemma_replace_absent(l, "hr"@, "h"@);
}

/// Every aggregate timeframe's own label reads back as that timeframe, so
/// `parse_timeframe` of the label of `timeframe_at(i)` gives `timeframe_at(i)`.
pub proof fn lemma_timeframe_label_round_trip(i: int)
    requires 0 <= i < 19,
    ensures timeframe_index(timeframe_text(timeframe_label(i))) == Some(i),
{
    lemma_label_text(i);
    reveal_strlit("2m"); reveal_strlit("3m"); reveal_strlit("4m"); reveal_strlit("5m");
    reveal_strlit("6m"); reveal_strlit("7m"); reveal_strlit("8m"); reveal_strlit("9m");
    reveal_strlit("10m"); reveal_strlit("11m"); reveal_strlit("12m"); reveal_strlit("13m");
    reveal_strlit("14m"); reveal_strlit("15m"); reveal_strlit("30m"); reveal_strlit("1h");
    reveal_strlit("4h"); reveal_strlit("12h"); reveal_strlit("1d");
    reveal_strlit("2"); reveal_strlit("3"); reveal_strlit("4"); reveal_strlit("5");
    reveal_strlit("6"); reveal_strlit("7"); reveal_strlit("8"); reveal_strlit("9");
    reveal_strlit("10"); reveal_strlit("11"); reveal_strlit("12"); reveal_strlit("13");
    reveal_strlit("14"); reveal_strlit("15"); reveal_strlit("30"); reveal_strlit("60");
    reveal_strlit("60m"); reveal_strlit("240"); reveal_strlit("240m"); reveal_strlit("720");
    reveal_strlit("720m"); reveal_strlit("1440"); reveal_strlit("1440m"); reveal_strlit("24h");
    reveal_strlit("d"); reveal_strlit("day"); reveal_strlit("daily");
    if i == 0 {
        assert(timeframe_index("2m"@) == Some(0int));
    } else if i == 1 {
        assert(timeframe_index("3m"@) == Some(1int));
    } else if i == 2 {
        assert(timeframe_index("4m"@) == Some(2int));
    } else if i == 3 {
        assert(timeframe_index("5m"@) == Some(3int));
    } else if i == 4 {
        assert(timeframe_index("6m"@) == Some(4int));
    } else if i == 5 {
        assert(timeframe_index("7m"@) == Some(5int));
    } else if i == 6 {
        assert(timeframe_index("8m"@) == Some(6int));
    } else if i == 7 {
        assert(timeframe_index("9m"@) == Some(7int));
    } else if i == 8 {
        assert(timeframe_index("10m"@) == Some(8int));
    } else if i == 9 {
        assert("11m"@[1] != "10m"@[1]);
        assert(timeframe_index("11m"@) == Some(9int));
    } else if i == 10 {
        assert("12m"@[1] != "10m"@[1]);
        assert("12m"@[1] != "11m"@[1]);
        assert(timeframe_index("12m"@) == Some(10int));
    } else if i == 11 {
        assert("13m"@[1] != "10m"@[1]);
        assert("13m"@[1] != "11m"@[1]);
        assert("13m"@[1] != "12m"@[1]);
        assert(timeframe_index("13m"@) == Some(11int));
    } else if i == 12 {
        assert("14m"@[1] != "10m"@[1]);
        assert("14m"@[1] != "11m"@[1]);
        assert("14m"@[1] != "12m"@[1]);
        assert("14m"@[1] != "13m"@[1]);
        assert(timeframe_index("14m"@) == Some(12int));
    } else if i == 13 {
        assert("15m"@[1] != "10m"@[1]);
        assert("15m"@[1] != "11m"@[1]);
        assert("15m"@[1] != "12m"@[1]);
        assert("15m"@[1] != "13m"@[1]);
        assert("15m"@[1] != "14m"@[1]);
        assert(timeframe_index("15m"@) == Some(13int));
    } else if i == 14 {
        assert(timeframe_index("30m"@) == Some(14int));
    } else if i == 15 {
        assert(timeframe_index("1h"@) == Some(15int));
    } else if i == 16 {
        assert(timeframe_index("4h"@) == Some(16int));
    } else if i == 17 {
        assert(timeframe_index("12h"@) == Some(17int));
    } else if i == 18 {
        assert(timeframe_index("1d"@) == Some(18int));
    }
}

/// Every market-trend timeframe's own label reads back as that timeframe,
/// so `parse_trend_timeframe` of the label of `trend_timeframe_at(i)` gives
/// `trend_timeframe_at(i)`.
pub proof fn lemma_trend_label_round_trip(t: TrendTimeframeSpec, i: int)
    requires is_trend_entry(t, i),
    ensures trend_index(timeframe_text(t.label@)) == Some(i),
{
    reveal_strlit("5m"); reveal_strlit("15m"); reveal_strlit("1h");
    reveal_strlit("5"); reveal_strlit("15"); reveal_strlit("60"); reveal_strlit("60m");
    if i == 0 {
        lemma_label_text(3);
    } else if i == 1 {
        lemma_label_text(13);
        assert("15m"@[1] != "5m"@[1]);
    } else {
        lemma_label_text(15);
    }
}

} // verus!
