//! Names of tables, identifiers, templates and runs.
use vstd::prelude::*;
use vstd::string::StringExecFns;
use crate::text::{
    chars_of, eq_lit, is_alnum_char, is_ascii_alnum, is_ascii_digit, lower_char, push_all, push_lit, string_of,
    to_lower_char, starts_with_chars,
};
use crate::numeric::{
    digits_worth, lemma_leading_zeros_worth, lemma_nat_digits_are_digits, lemma_nat_digits_worth,
    nat_digits, u64_digits,
};

verus! {

/// A character of a table-name suffix: alphanumerics lowered, all else `_`.
pub open spec fn table_suffix_char(c: char) -> char {
    if is_ascii_alnum(c) { lower_char(c) } else { '_' }
}

pub open spec fn result_table_text(run_id: Seq<char>) -> Seq<char> {
    "entry_exit_template_results_"@ + run_id.map_values(|c: char| table_suffix_char(c))
}

/// Characters allowed in an identifier that is quoted into SQL.
pub open spec fn is_identifier_char(c: char) -> bool {
    is_ascii_alnum(c) || c == '_'
}

pub open spec fn is_plain_identifier(s: Seq<char>) -> bool {
    forall|k: int| 0 <= k < s.len() ==> is_identifier_char(#[trigger] s[k])
}

/// Whether a name can be quoted as an identifier as it is: ASCII letters,
/// digits and underscores only.
pub fn plain_identifier(s: &str) -> (r: bool)
    ensures r == is_plain_identifier(s@),
{
    let v = chars_of(s);
    let mut i: usize = 0;
    while i < v.len()
        invariant
            i <= v@.len(),
            v@ == s@,
            forall|k: int| 0 <= k < i ==> is_identifier_char(#[trigger] v@[k]),
        decreases v.len() - i,
    {
        let c = v[i];
        if !(('a' <= c && c <= 'z') || ('A' <= c && c <= 'Z') || ('0' <= c && c <= '9') || c == '_') {
            return false;
        }
        i = i + 1;
    }
    true
}

/// The per-run table of raw template results for a run id.
pub fn result_table_name_for_run(run_id: &str) -> (r: String)
    ensures
        r@ == result_table_text(run_id@),
        is_plain_identifier(r@),
{
    let id = chars_of(run_id);
    let mut v = chars_of("entry_exit_template_results_");
    let ghost prefix = v@;
    let mut i: usize = 0;
    while i < id.len()
        invariant
            i <= id.len(),
            id@ == run_id@,
            prefix == "entry_exit_template_results_"@,
            v@ == prefix + id@.take(i as int).map_values(|c: char| table_suffix_char(c)),
        decreases id.len() - i,
    {
        let c = id[i];
        let d = if is_alnum_char(c) { to_lower_char(c) } else { '_' };
        v.push(d);
        i = i + 1;
        assert(v@ =~= prefix + id@.take(i as int).map_values(|c: char| table_suffix_char(c)));
    }
    proof {
        assert(id@.take(id@.len() as int) =~= id@);
        reveal_strlit("entry_exit_template_results_");
        assert forall|k: int| 0 <= k < v@.len() implies is_identifier_char(#[trigger] v@[k]) by {
            if k >= prefix.len() {
                let c = id@[k - prefix.len()];
                assert(v@[k] == table_suffix_char(c));
            }
        }
    }
    string_of(&v)
}

/// An identifier in back-quotes, ready to stand in SQL text.
pub fn quoted_identifier(identifier: &str) -> (r: String)
    requires is_plain_identifier(identifier@),
    ensures r@ == seq!['`'] + identifier@ + seq!['`'],
{
    let mut v: Vec<char> = Vec::new();
    v.push('`');
    let id = chars_of(identifier);
    push_all(&mut v, &id);
    v.push('`');
    proof { assert(v@ =~= seq!['`'] + identifier@ + seq!['`']); }
    string_of(&v)
}

/// `run_id` with every leading `eetc-` removed.
pub open spec fn strip_creator_prefix(s: Seq<char>) -> Seq<char>
    decreases s.len(),
{
    if s.len() >= 5 && s.take(5) == "eetc-"@ { strip_creator_prefix(s.skip(5)) } else { s }
}

/// The decimal digits of `n`, left-padded with zeros to at least four.
pub open spec fn padded4(n: nat) -> Seq<char> {
    let d = nat_digits(n);
    if d.len() >= 4 { d } else { Seq::new((4 - d.len()) as nat, |i: int| '0') + d }
}

pub open spec fn template_uid_text(run_id: Seq<char>, sequence: nat) -> Seq<char> {
    "tpl-"@ + strip_creator_prefix(run_id) + "-"@ + padded4(sequence)
}

/// The uid of the `sequence`-th template of a creator run: `tpl-<run>-0007`.
pub fn template_uid(run_id: &str, sequence: usize) -> (r: String)
    ensures r@ == template_uid_text(run_id@, sequence as nat),
{
    let mut id = chars_of(run_id);
    let pre = chars_of("eetc-");
    proof { reveal_strlit("eetc-"); }
    while starts_with_chars(&id, &pre)
        invariant
            pre@ == "eetc-"@,
            pre@.len() == 5,
            strip_creator_prefix(id@) == strip_creator_prefix(run_id@),
        decreases id@.len(),
    {
        let ghost before = id@;
        id = crate::text::slice_chars(&id, 5, id.len());
        proof { assert(id@ =~= before.skip(5)); }
    }
    let mut v = chars_of("tpl-");
    push_all(&mut v, &id);
    push_lit(&mut v, "-");
    let d = u64_digits(sequence as u64);
    let mut k = d.len();
    let ghost pad_start = v@;
    while k < 4
        invariant
            d.len() <= k <= 4 || (k == d.len() && k >= 4),
            v@ == pad_start + Seq::new((k - d.len()) as nat, |i: int| '0'),
        decreases 4 - k,
    {
        v.push('0');
        k = k + 1;
        assert(v@ =~= pad_start + Seq::new((k - d.len()) as nat, |i: int| '0'));
    }
    push_all(&mut v, &d);
    proof {
        if d@.len() >= 4 {
            assert(Seq::new(0nat, |i: int| '0') =~= Seq::<char>::empty());
        }
        assert(v@ =~= "tpl-"@ + strip_creator_prefix(run_id@) + "-"@ + padded4(sequence as nat));
    }
    string_of(&v)
}

pub open spec fn candle_table_text(source_table: Option<Seq<char>>) -> Seq<char> {
    match source_table {
        Some(t) if t == "futures_contract_3m_candles"@ || t == "futures_contract_5m_candles"@
            || t == "futures_contract_15m_candles"@ || t == "futures_contract_30m_candles"@
            || t == "futures_contract_1h_candles"@ || t == "futures_contract_4h_candles"@
            || t == "futures_contract_12h_candles"@ || t == "futures_contract_1d_candles"@ => t,
        _ => "futures_contract_1m_candles"@,
    }
}

/// The candle table to read forward candles from: the setup's own table when
/// it is one of the known futures tables, the one-minute table otherwise.
pub fn futures_candle_table(source_table: Option<&str>) -> (r: String)
    ensures r@ == candle_table_text(match source_table { Some(s) => Some(s@), None => None }),
{
    if let Some(t) = source_table {
        let c = chars_of(t);
        if eq_lit(&c, "futures_contract_3m_candles") || eq_lit(&c, "futures_contract_5m_candles")
            || eq_lit(&c, "futures_contract_15m_candles") || eq_lit(&c, "futures_contract_30m_candles")
            || eq_lit(&c, "futures_contract_1h_candles") || eq_lit(&c, "futures_contract_4h_candles")
            || eq_lit(&c, "futures_contract_12h_candles") || eq_lit(&c, "futures_contract_1d_candles") {
            return string_of(&c);
        }
    }
    String::from_str("futures_contract_1m_candles")
}

/// The default source table of a timeframe: `futures_contract_<tf>_candles`.
pub fn default_source_table(timeframe: &str) -> (r: String)
    ensures r@ == "futures_contract_"@ + timeframe@ + "_candles"@,
{
    let mut v = chars_of("futures_contract_");
    push_lit(&mut v, timeframe);
    push_lit(&mut v, "_candles");
    string_of(&v)
}

/// The outcome mode label of an XA outcome run.
pub fn outcome_mode(direction_mode: &str) -> (r: String)
    ensures r@ == "c1_open_xa_trade_"@ + direction_mode@,
{
    let mut v = chars_of("c1_open_xa_trade_");
    push_lit(&mut v, direction_mode);
    string_of(&v)
}

/// The key under which forward candles of a setup are cached:
/// `<source table>|<symbol>`, the table empty where absent.
pub fn candle_group_key(source_table: Option<&str>, symbol: &str) -> (r: String)
    ensures r@ == (match source_table { Some(t) => t@, None => Seq::empty() }) + "|"@ + symbol@,
{
    let mut v: Vec<char> = Vec::new();
    if let Some(t) = source_table {
        push_lit(&mut v, t);
    }
    push_lit(&mut v, "|");
    push_lit(&mut v, symbol);
    proof {
        if source_table is None {
            assert(v@ =~= Seq::<char>::empty() + "|"@ + symbol@);
        }
    }
    string_of(&v)
}

/// A run id made of a prefix, the start time in milliseconds and the process id.
pub fn stamped_run_id(prefix: &str, millis: u64, pid: u32) -> (r: String)
    ensures r@ == prefix@ + "-"@ + nat_digits(millis as nat) + "-"@ + nat_digits(pid as nat),
{
    let mut v = chars_of(prefix);
    push_lit(&mut v, "-");
    push_all(&mut v, &u64_digits(millis));
    push_lit(&mut v, "-");
    push_all(&mut v, &u64_digits(pid as u64));
    string_of(&v)
}

/// The SQL text of a percentage ratio that is zero where the denominator is
/// missing or not positive.
pub open spec fn ratio_expr_text(numerator: Seq<char>, denominator: Seq<char>) -> Seq<char> {
    "CASE\n            WHEN COALESCE("@ + denominator + ", 0.0) > 0\n            THEN (CAST("@
        + numerator + " AS DOUBLE) / CAST("@ + denominator
        + " AS DOUBLE)) * 100.0\n            ELSE 0.0\n        END"@
}

/// A SQL expression for `numerator / denominator * 100`, guarded against a
/// missing or non-positive denominator.
pub fn ratio_expr(numerator: &str, denominator: &str) -> (r: String)
    ensures r@ == ratio_expr_text(numerator@, denominator@),
{
    let n = chars_of(numerator);
    let d = chars_of(denominator);
    let mut v = chars_of("CASE\n            WHEN COALESCE(");
    push_all(&mut v, &d);
    push_lit(&mut v, ", 0.0) > 0\n            THEN (CAST(");
    push_all(&mut v, &n);
    push_lit(&mut v, " AS DOUBLE) / CAST(");
    push_all(&mut v, &d);
    push_lit(&mut v, " AS DOUBLE)) * 100.0\n            ELSE 0.0\n        END");
    string_of(&v)
}

/// Four-digit padding keeps the number: the padded digits of `n` write `n`.
proof fn lemma_padded4_worth(n: nat)
    ensures digits_worth(padded4(n)) == n,
{
    lemma_nat_digits_worth(n);
    let d = nat_digits(n);
    if d.len() < 4 {
        lemma_leading_zeros_worth((4 - d.len()) as nat, d);
    }
}

/// Template uids are unique within a run: two templates of the same creator
/// run with different sequence numbers never share a uid.
pub proof fn lemma_template_uid_unique(run_id: Seq<char>, a: nat, b: nat)
    requires a != b,
    ensures template_uid_text(run_id, a) != template_uid_text(run_id, b),
{
    let pre = "tpl-"@ + strip_creator_prefix(run_id) + "-"@;
    let ta = template_uid_text(run_id, a);
    let tb = template_uid_text(run_id, b);
    if ta == tb {
        assert(ta.skip(pre.len() as int) =~= padded4(a));
        assert(tb.skip(pre.len() as int) =~= padded4(b));
        lemma_padded4_worth(a);
        lemma_padded4_worth(b);
    }
}

/// Run ids are unique in time: with the same prefix and process id, runs
/// stamped at different milliseconds get different ids.
pub proof fn lemma_stamped_run_id_unique(prefix: Seq<char>, a: u64, b: u64, pid: u32)
    requires a != b,
    ensures
        prefix + "-"@ + nat_digits(a as nat) + "-"@ + nat_digits(pid as nat)
            != prefix + "-"@ + nat_digits(b as nat) + "-"@ + nat_digits(pid as nat),
{
    reveal_strlit("-");
    let q = prefix + "-"@;
    let da = nat_digits(a as nat);
    let db = nat_digits(b as nat);
    let e = nat_digits(pid as nat);
    let ta = q + da + "-"@ + e;
    let tb = q + db + "-"@ + e;
    if ta == tb {
        let ua = ta.skip(q.len() as int);
        let ub = tb.skip(q.len() as int);
        assert(ua =~= da + "-"@ + e);
        assert(ub =~= db + "-"@ + e);
        lemma_nat_digits_are_digits(a as nat);
        lemma_nat_digits_are_digits(b as nat);
        if da.len() < db.len() {
            assert(ua[da.len() as int] == '-');
            assert(ub[da.len() as int] == db[da.len() as int]);
            assert(is_ascii_digit(db[da.len() as int]));
        } else if db.len() < da.len() {
            assert(ub[db.len() as int] == '-');
            assert(ua[db.len() as int] == da[db.len() as int]);
            assert(is_ascii_digit(da[db.len() as int]));
        } else {
            assert(ua.take(da.len() as int) =~= da);
            assert(ub.take(db.len() as int) =~= db);
            lemma_nat_digits_worth(a as nat);
            lemma_nat_digits_worth(b as nat);
        }
    }
}

/// The query that lists the one-minute contract symbols, filtered by root
/// symbol and by symbol where those are given, and limited unless the limit
/// is `i64::MAX` (no limit).
pub open spec fn symbol_list_sql_text(by_root: bool, by_symbol: bool, limit: i64) -> Seq<char> {
    let base = "SELECT DISTINCT symbol FROM futures_contract_1m_candles"@;
    let filtered = if by_root && by_symbol {
        base + " WHERE root_symbol = ? AND symbol = ?"@
    } else if by_root {
        base + " WHERE root_symbol = ?"@
    } else if by_symbol {
        base + " WHERE symbol = ?"@
    } else {
        base
    };
    let ordered = filtered + " ORDER BY symbol"@;
    if limit != i64::MAX { ordered + " LIMIT ?"@ } else { ordered }
}

/// The SQL text that selects the symbols whose candles are rebuilt.
pub fn symbol_list_sql(by_root: bool, by_symbol: bool, limit: i64) -> (r: String)
    ensures r@ == symbol_list_sql_text(by_root, by_symbol, limit),
{
    let mut v = chars_of("SELECT DISTINCT symbol FROM futures_contract_1m_candles");
    if by_root && by_symbol {
        push_lit(&mut v, " WHERE root_symbol = ? AND symbol = ?");
    } else if by_root {
        push_lit(&mut v, " WHERE root_symbol = ?");
    } else if by_symbol {
        push_lit(&mut v, " WHERE symbol = ?");
    }
    push_lit(&mut v, " ORDER BY symbol");
    if limit != i64::MAX {
        push_lit(&mut v, " LIMIT ?");
    }
    string_of(&v)
}

/// The limit bound to the symbol query: at least one.
pub fn symbol_list_limit(limit: i64) -> (r: i64)
    ensures r == (if limit >= 1 { limit } else { 1 }),
{
    if limit >= 1 { limit } else { 1 }
}

} // verus!
