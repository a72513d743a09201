//! Normalization of the option values that the command line hands over:
//! source scopes, timeframes, risk bases, entry kinds and direction modes.
use vstd::prelude::*;
use vstd::string::StringExecFns;
use crate::text::{
    ascii_lower, chars_of, eq_lit, is_ascii_upper, is_trimmed, lemma_ascii_lower_facts,
    lemma_trim_is_trimmed, lemma_trim_of_trimmed, lower_chars, string_of, trim, trim_chars,
};

verus! {

/// The character view of an optional string.
pub open spec fn view_opt(o: Option<String>) -> Option<Seq<char>> {
    match o {
        Some(s) => Some(s@),
        None => None,
    }
}

/// Trimmed and lowered to ASCII lower case, as the option parsers compare values.
pub open spec fn folded(s: Seq<char>) -> Seq<char> {
    ascii_lower(trim(s))
}

/// The folded text of a string.
pub fn fold_text(s: &str) -> (r: Vec<char>)
    ensures r@ == folded(s@),
{
    let v = chars_of(s);
    let t = trim_chars(&v);
    lower_chars(&t)
}

pub open spec fn source_scope_of(value: Option<Seq<char>>) -> Seq<char> {
    match value {
        Some(v) if folded(v) == "futures"@ || folded(v) == "futures_1m"@ => "futures"@,
        Some(v) if folded(v) == "daily"@ || folded(v) == "candles_daily"@ => "daily"@,
        _ => "all"@,
    }
}

/// The source scope named on the command line: `futures`, `daily` or `all`.
pub fn normalize_source_scope(value: Option<String>) -> (r: String)
    ensures r@ == source_scope_of(view_opt(value)),
{
    match value {
        Some(v) => {
            let f = fold_text(v.as_str());
            if eq_lit(&f, "futures") || eq_lit(&f, "futures_1m") {
                String::from_str("futures")
            } else if eq_lit(&f, "daily") || eq_lit(&f, "candles_daily") {
                String::from_str("daily")
            } else {
                String::from_str("all")
            }
        }
        None => String::from_str("all"),
    }
}

pub open spec fn source_of(value: Option<Seq<char>>) -> Seq<char> {
    match value {
        Some(v) if folded(v) == "futures"@ => "futures"@,
        Some(v) if folded(v) == "daily"@ => "daily"@,
        _ => "all"@,
    }
}

/// The source named for the XA outcome labels: `futures`, `daily` or `all`.
pub fn normalize_source(value: Option<String>) -> (r: String)
    ensures r@ == source_of(view_opt(value)),
{
    match value {
        Some(v) => {
            let f = fold_text(v.as_str());
            if eq_lit(&f, "futures") {
                String::from_str("futures")
            } else if eq_lit(&f, "daily") {
                String::from_str("daily")
            } else {
                String::from_str("all")
            }
        }
        None => String::from_str("all"),
    }
}

pub open spec fn timeframe_alias(f: Seq<char>) -> Seq<char> {
    if f == "1"@ || f == "1min"@ || f == "1-min"@ || f == "1minute"@ || f == "1-minute"@ {
        "1m"@
    } else if f == "5"@ || f == "5min"@ || f == "5-min"@ || f == "5minute"@ || f == "5-minute"@ {
        "5m"@
    } else if f == "day"@ || f == "1d"@ {
        "daily"@
    } else {
        f
    }
}

pub open spec fn timeframe_of(value: Option<Seq<char>>) -> Option<Seq<char>> {
    match value {
        Some(v) if folded(v).len() > 0 => Some(timeframe_alias(folded(v))),
        _ => None,
    }
}

/// The pattern timeframe filter: `1m`, `5m`, `daily`, or the folded text as given.
pub fn normalize_timeframe(value: Option<String>) -> (r: Option<String>)
    ensures view_opt(r) == timeframe_of(view_opt(value)),
{
    match value {
        None => None,
        Some(v) => {
            let f = fold_text(v.as_str());
            if f.len() == 0 {
                None
            } else if eq_lit(&f, "1") || eq_lit(&f, "1min") || eq_lit(&f, "1-min")
                || eq_lit(&f, "1minute") || eq_lit(&f, "1-minute") {
                Some(String::from_str("1m"))
            } else if eq_lit(&f, "5") || eq_lit(&f, "5min") || eq_lit(&f, "5-min")
                || eq_lit(&f, "5minute") || eq_lit(&f, "5-minute") {
                Some(String::from_str("5m"))
            } else if eq_lit(&f, "day") || eq_lit(&f, "1d") {
                Some(String::from_str("daily"))
            } else {
                Some(string_of(&f))
            }
        }
    }
}

pub open spec fn outcome_timeframe_of(value: Option<Seq<char>>) -> Option<Seq<char>> {
    match value {
        Some(v) if folded(v).len() > 0 && folded(v) != "all"@ => Some(folded(v)),
        _ => None,
    }
}

/// The XA outcome timeframe filter: the folded text, unless empty or `all`.
pub fn normalize_outcome_timeframe(value: Option<String>) -> (r: Option<String>)
    ensures view_opt(r) == outcome_timeframe_of(view_opt(value)),
{
    match value {
        None => None,
        Some(v) => {
            let f = fold_text(v.as_str());
            if f.len() == 0 || eq_lit(&f, "all") {
                None
            } else {
                Some(string_of(&f))
            }
        }
    }
}

pub open spec fn risk_basis_of(value: Option<Seq<char>>) -> Seq<char> {
    match value {
        Some(v) if folded(v) == "xa"@ || folded(v) == "xa_price_length"@ || folded(v) == "x_to_a"@ => "xa_price_length"@,
        _ => "cd_price_length"@,
    }
}

/// The risk basis: `xa_price_length` when XA is named, `cd_price_length` otherwise.
pub fn normalize_risk_basis(value: Option<String>) -> (r: String)
    ensures r@ == risk_basis_of(view_opt(value)),
{
    match value {
        Some(v) => {
            let f = fold_text(v.as_str());
            if eq_lit(&f, "xa") || eq_lit(&f, "xa_price_length") || eq_lit(&f, "x_to_a") {
                String::from_str("xa_price_length")
            } else {
                String::from_str("cd_price_length")
            }
        }
        None => String::from_str("cd_price_length"),
    }
}

pub open spec fn is_pullback_name(f: Seq<char>) -> bool {
    f == "pullback"@ || f == "pullback_retest"@ || f == "pullback-retest-d"@
        || f == "pullback_retest_d"@ || f == "retest-d"@ || f == "retest_d"@
}

pub open spec fn entry_kind_of(value: Option<Seq<char>>) -> Seq<char> {
    match value {
        Some(v) if is_pullback_name(folded(v)) => "pullback_retest_d"@,
        _ => "confirmation_plus_n_open"@,
    }
}

/// The entry kind: `pullback_retest_d` for the pullback names, the
/// confirmation-plus-N open entry otherwise.
pub fn normalize_entry_kind(value: Option<String>) -> (r: String)
    ensures r@ == entry_kind_of(view_opt(value)),
{
    match value {
        Some(v) => {
            let f = fold_text(v.as_str());
            if eq_lit(&f, "pullback") || eq_lit(&f, "pullback_retest")
                || eq_lit(&f, "pullback-retest-d") || eq_lit(&f, "pullback_retest_d")
                || eq_lit(&f, "retest-d") || eq_lit(&f, "retest_d") {
                String::from_str("pullback_retest_d")
            } else {
                String::from_str("confirmation_plus_n_open")
            }
        }
        None => String::from_str("confirmation_plus_n_open"),
    }
}

pub open spec fn direction_mode_of(value: Option<Seq<char>>) -> Option<Seq<char>> {
    match value {
        Some(v) => {
            let f = folded(v);
            if f == "pattern"@ || f == "pattern_direction"@ || f == "with_pattern"@ {
                Some("pattern"@)
            } else if f == "inverse"@ || f == "inverse_pattern"@ || f == "against_pattern"@
                || f == "reversal"@ || f == "xa_reversal"@ {
                Some("inverse_pattern"@)
            } else {
                None
            }
        }
        None => None,
    }
}

/// The trade direction mode: `pattern`, `inverse_pattern`, or none when the
/// value names neither.
pub fn normalize_direction_mode(value: Option<String>) -> (r: Option<String>)
    ensures view_opt(r) == direction_mode_of(view_opt(value)),
{
    match value {
        None => None,
        Some(v) => {
            let f = fold_text(v.as_str());
            if eq_lit(&f, "pattern") || eq_lit(&f, "pattern_direction") || eq_lit(&f, "with_pattern") {
                Some(String::from_str("pattern"))
            } else if eq_lit(&f, "inverse") || eq_lit(&f, "inverse_pattern")
                || eq_lit(&f, "against_pattern") || eq_lit(&f, "reversal") || eq_lit(&f, "xa_reversal") {
                Some(String::from_str("inverse_pattern"))
            } else {
                None
            }
        }
    }
}

/// Folding twice is folding once.
pub proof fn lemma_folded_idempotent(s: Seq<char>)
    ensures folded(folded(s)) == folded(s),
{
    let t = trim(s);
    lemma_trim_is_trimmed(s);
    lemma_ascii_lower_facts(t);
    lemma_trim_of_trimmed(ascii_lower(t));
}

/// Text with no capital letter and no white space at its ends folds to itself.
pub proof fn lemma_folded_plain(s: Seq<char>)
    requires
        is_trimmed(s),
        forall|k: int| 0 <= k < s.len() ==> !is_ascii_upper(#[trigger] s[k]),
    ensures folded(s) == s,
{
    lemma_trim_of_trimmed(s);
    assert(ascii_lower(s) =~= s);
}

/// A source scope or source that was already normalized normalizes to itself.
pub proof fn lemma_source_normalizers_idempotent(value: Option<Seq<char>>)
    ensures
        source_scope_of(Some(source_scope_of(value))) == source_scope_of(value),
        source_of(Some(source_of(value))) == source_of(value),
{
    reveal_strlit("futures");
    reveal_strlit("daily");
    reveal_strlit("all");
    reveal_strlit("futures_1m");
    reveal_strlit("candles_daily");
    lemma_folded_plain("futures"@);
    lemma_folded_plain("daily"@);
    lemma_folded_plain("all"@);
}

/// A pattern timeframe filter that was already normalized normalizes to
/// itself, and so does an outcome timeframe filter.
pub proof fn lemma_timeframe_normalizers_idempotent(value: Option<Seq<char>>)
    ensures
        timeframe_of(value) matches Some(t) ==> timeframe_of(Some(t)) == Some(t),
        outcome_timeframe_of(value) matches Some(t) ==> outcome_timeframe_of(Some(t)) == Some(t),
{
    reveal_strlit("1m"); reveal_strlit("5m"); reveal_strlit("daily");
    reveal_strlit("1"); reveal_strlit("1min"); reveal_strlit("1-min");
    reveal_strlit("1minute"); reveal_strlit("1-minute");
    reveal_strlit("5"); reveal_strlit("5min"); reveal_strlit("5-min");
    reveal_strlit("5minute"); reveal_strlit("5-minute");
    reveal_strlit("day"); reveal_strlit("1d"); reveal_strlit("all");
    lemma_folded_plain("1m"@);
    lemma_folded_plain("5m"@);
    lemma_folded_plain("daily"@);
    if let Some(v) = value {
        lemma_folded_idempotent(v);
    }
}

/// A risk basis, entry kind or direction mode that was already normalized
/// normalizes to itself.
pub proof fn lemma_trade_normalizers_idempotent(value: Option<Seq<char>>)
    ensures
        risk_basis_of(Some(risk_basis_of(value))) == risk_basis_of(value),
        entry_kind_of(Some(entry_kind_of(value))) == entry_kind_of(value),
        direction_mode_of(value) matches Some(m) ==> direction_mode_of(Some(m)) == Some(m),
{
    reveal_strlit("xa_price_length"); reveal_strlit("cd_price_length");
    reveal_strlit("xa"); reveal_strlit("x_to_a");
    reveal_strlit("pullback_retest_d"); reveal_strlit("confirmation_plus_n_open");
    reveal_strlit("pullback"); reveal_strlit("pullback_retest"); reveal_strlit("pullback-retest-d");
    reveal_strlit("retest-d"); reveal_strlit("retest_d");
    reveal_strlit("pattern"); reveal_strlit("inverse_pattern");
    reveal_strlit("pattern_direction"); reveal_strlit("with_pattern"); reveal_strlit("inverse");
    reveal_strlit("against_pattern"); reveal_strlit("reversal"); reveal_strlit("xa_reversal");
    lemma_folded_plain("xa_price_length"@);
    lemma_folded_plain("cd_price_length"@);
    lemma_folded_plain("pullback_retest_d"@);
    lemma_folded_plain("confirmation_plus_n_open"@);
    lemma_folded_plain("pattern"@);
    lemma_folded_plain("inverse_pattern"@);
}

} // verus!
