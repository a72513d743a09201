//! Playbook routing: route statuses and their counts, template labels read
//! from stored rules, and the database reports that are retried or ignored.
use vstd::prelude::*;
use vstd::string::StringExecFns;
use crate::text::{ascii_lower, chars_of, eq_lit, push_all, push_lit, string_of, trim, trim_chars};
use crate::timeframes::matches_at;
use crate::options::view_opt;

verus! {

pub open spec fn status_priority(s: Seq<char>) -> int {
    if s == "TRADE"@ { 3 } else if s == "WATCHLIST"@ { 2 } else { 1 }
}

/// The priority of a route status: TRADE over WATCHLIST over anything else.
pub fn route_status_priority(status: &str) -> (r: i64)
    ensures r == status_priority(status@),
{
    let s = chars_of(status);
    if eq_lit(&s, "TRADE") { 3 } else if eq_lit(&s, "WATCHLIST") { 2 } else { 1 }
}

/// How many of the statuses among the first `n` are TRADE, WATCHLIST, other.
pub open spec fn status_counts(st: Seq<String>, n: int) -> (int, int, int)
    decreases n,
{
    if n <= 0 {
        (0, 0, 0)
    } else {
        let (t, w, s) = status_counts(st, n - 1);
        if st[n - 1]@ == "TRADE"@ { (t + 1, w, s) }
        else if st[n - 1]@ == "WATCHLIST"@ { (t, w + 1, s) }
        else { (t, w, s + 1) }
    }
}

/// Every status is counted once: the TRADE, WATCHLIST and other counts of
/// the first `n` statuses add up to `n`.
pub proof fn lemma_status_counts_total(st: Seq<String>, n: int)
    requires 0 <= n,
    ensures
        status_counts(st, n).0 + status_counts(st, n).1 + status_counts(st, n).2 == n,
        status_counts(st, n).0 >= 0, status_counts(st, n).1 >= 0, status_counts(st, n).2 >= 0,
    decreases n,
{
    if n > 0 {
        lemma_status_counts_total(st, n - 1);
    }
}

/// Counts the choices routed to TRADE, to WATCHLIST, and to anything else.
pub fn route_status_counts(statuses: &Vec<String>) -> (r: (i64, i64, i64))
    requires statuses@.len() <= i64::MAX,
    ensures
        (r.0 as int, r.1 as int, r.2 as int) == status_counts(statuses@, statuses@.len() as int),
{
    let mut trade: i64 = 0;
    let mut watchlist: i64 = 0;
    let mut skip: i64 = 0;
    let mut i: usize = 0;
    while i < statuses.len()
        invariant
            i <= statuses@.len() <= i64::MAX,
            (trade as int, watchlist as int, skip as int) == status_counts(statuses@, i as int),
        decreases statuses.len() - i,
    {
        proof { lemma_status_counts_total(statuses@, i as int); }
        let s = chars_of(statuses[i].as_str());
        if eq_lit(&s, "TRADE") {
            trade = trade + 1;
        } else if eq_lit(&s, "WATCHLIST") {
            watchlist = watchlist + 1;
        } else {
            skip = skip + 1;
        }
        i = i + 1;
    }
    (trade, watchlist, skip)
}

pub open spec fn gate_counts(st: Seq<String>, n: int) -> (int, int)
    decreases n,
{
    if n <= 0 {
        (0, 0)
    } else {
        let (t, s) = gate_counts(st, n - 1);
        if st[n - 1]@ == "TRADE"@ { (t + 1, s) } else { (t, s + 1) }
    }
}

/// Every root symbol is gated once: the TRADE and skipped counts of the
/// first `n` statuses add up to `n`.
pub proof fn lemma_gate_counts_total(st: Seq<String>, n: int)
    requires 0 <= n,
    ensures gate_counts(st, n).0 + gate_counts(st, n).1 == n, gate_counts(st, n).0 >= 0, gate_counts(st, n).1 >= 0,
    decreases n,
{
    if n > 0 {
        lemma_gate_counts_total(st, n - 1);
    }
}

/// Counts the root symbols gated to TRADE and those skipped.
pub fn symbol_gate_counts(statuses: &Vec<String>) -> (r: (i64, i64))
    requires statuses@.len() <= i64::MAX,
    ensures (r.0 as int, r.1 as int) == gate_counts(statuses@, statuses@.len() as int),
{
    let mut trade: i64 = 0;
    let mut skip: i64 = 0;
    let mut i: usize = 0;
    while i < statuses.len()
        invariant
            i <= statuses@.len() <= i64::MAX,
            (trade as int, skip as int) == gate_counts(statuses@, i as int),
        decreases statuses.len() - i,
    {
        proof { lemma_gate_counts_total(statuses@, i as int); }
        if eq_lit(&chars_of(statuses[i].as_str()), "TRADE") {
            trade = trade + 1;
        } else {
            skip = skip + 1;
        }
        i = i + 1;
    }
    (trade, skip)
}

pub open spec fn risk_label(basis: Seq<char>) -> Seq<char> {
    if basis == "xa_price_length"@ { "XA"@ } else if basis == "pullback_retest_extreme"@ { "PB"@ } else { "CD"@ }
}

/// The short label of a template's risk basis: XA, PB or CD.
pub fn template_risk_label(risk_basis: &str) -> (r: String)
    ensures r@ == risk_label(risk_basis@),
{
    let b = chars_of(risk_basis);
    if eq_lit(&b, "xa_price_length") {
        String::from_str("XA")
    } else if eq_lit(&b, "pullback_retest_extreme") {
        String::from_str("PB")
    } else {
        String::from_str("CD")
    }
}

/// The direction label of a template: INV against the pattern, PAT with it.
pub fn direction_label(direction_mode: &str) -> (r: String)
    ensures r@ == (if direction_mode@ == "inverse_pattern"@ { "INV"@ } else { "PAT"@ }),
{
    if eq_lit(&chars_of(direction_mode), "inverse_pattern") {
        String::from_str("INV")
    } else {
        String::from_str("PAT")
    }
}

/// What `serde_json` finds at a JSON pointer of a text, read as an `i64`:
/// `None` where the text is no JSON, the pointer leads nowhere, or the value
/// there is no integer that fits.
pub uninterp spec fn json_i64_at(json: Seq<char>, pointer: Seq<char>) -> Option<i64>;

/// `serde_json::from_str::<Value>`, then `Value::pointer` and
/// `Value::as_i64`. The contract names the result `json_i64_at` and does not
/// state JSON parsing.
#[verifier::external_body]
fn json_i64_at_pointer(json: &str, pointer: &str) -> (r: Option<i64>)
    ensures r == json_i64_at(json@, pointer@),
{
    match serde_json::from_str::<serde_json::Value>(json) {
        Ok(value) => match value.pointer(pointer) {
            Some(found) => found.as_i64(),
            None => None,
        },
        Err(_) => None,
    }
}

/// An entry offset read from a rule, at least one: one where none was found.
pub open spec fn offset_at_least_one(found: Option<i64>) -> int {
    let v = match found { Some(x) => x as int, None => 1 };
    if v < 1 { 1 } else { v }
}

pub open spec fn entry_offset_of(rule_json: Seq<char>) -> int {
    offset_at_least_one(json_i64_at(rule_json, "/entry/offset_from_confirmation"@))
}

/// The entry offset found in a rule, raised to one; one where none was found.
pub fn entry_offset_or_one(found: Option<i64>) -> (r: i64)
    ensures r == offset_at_least_one(found),
{
    let v: i64 = match found {
        Some(x) => x,
        None => 1,
    };
    if v < 1 { 1 } else { v }
}

/// The entry offset stored in a template rule, at least one (one where absent).
pub fn parse_entry_offset(rule_json: &str) -> (r: i64)
    ensures r == entry_offset_of(rule_json@),
{
    entry_offset_or_one(json_i64_at_pointer(rule_json, "/entry/offset_from_confirmation"))
}

/// The entry offset found in a rule as it is, zero where none was found.
pub fn entry_offset_or_zero(found: Option<i64>) -> (r: i64)
    ensures r == (match found { Some(x) => x, None => 0 }),
{
    match found {
        Some(x) => x,
        None => 0,
    }
}

/// The entry offset stored in a template rule, zero where absent.
pub fn rule_entry_offset(rule_json: &str) -> (r: i64)
    ensures r == (match json_i64_at(rule_json@, "/entry/offset_from_confirmation"@) { Some(x) => x, None => 0 }),
{
    entry_offset_or_zero(json_i64_at_pointer(rule_json, "/entry/offset_from_confirmation"))
}

/// The reason recorded for a manual family skip.
pub fn manual_skip_reason(reason: &str) -> (r: String)
    ensures
        r@ == (if trim(reason@).len() == 0 { "manual family skip"@ } else { "manual family skip: "@ + trim(reason@) }),
{
    let t = trim_chars(&chars_of(reason));
    if t.len() == 0 {
        String::from_str("manual family skip")
    } else {
        let mut v = chars_of("manual family skip: ");
        push_all(&mut v, &t);
        string_of(&v)
    }
}

/// Whether `pat` occurs in `s`.
pub open spec fn text_contains(s: Seq<char>, pat: Seq<char>) -> bool {
    exists|i: int| 0 <= i && i + pat.len() <= s.len() && #[trigger] s.subrange(i, i + pat.len()) == pat
}

/// `str::contains` on a literal.
pub fn contains_text(s: &str, pat: &str) -> (r: bool)
    ensures r == text_contains(s@, pat@),
{
    let v = chars_of(s);
    let p = chars_of(pat);
    if p.len() > v.len() {
        return false;
    }
    if p.len() == 0 {
        proof { let z: int = 0; assert(s@.subrange(z, z + pat@.len()) =~= pat@); }
        return true;
    }
    let last = v.len() - p.len();
    let mut i: usize = 0;
    while i <= last
        invariant
            v@ == s@,
            p@ == pat@,
            0 < p@.len() <= v@.len(),
            last == v@.len() - p@.len(),
            last < v@.len(),
            i <= last + 1,
            forall|j: int| 0 <= j < i && j + pat@.len() <= s@.len() ==> #[trigger] s@.subrange(j, j + pat@.len()) != pat@,
        decreases last + 1 - i,
    {
        if matches_at(&v, i, &p) {
            return true;
        }
        i = i + 1;
    }
    false
}

/// A database report of a lock wait timeout, as the route cleaner reads it:
/// SQL state HY000 and error 1205 in the message.
pub fn is_lock_timeout(code: Option<String>, message: &str) -> (r: bool)
    ensures r == (view_opt(code) == Some("HY000"@) && text_contains(message@, "1205"@)),
{
    let is_code = match &code {
        Some(c) => eq_lit(&chars_of(c.as_str()), "HY000"),
        None => false,
    };
    is_code && contains_text(message, "1205")
}

/// A database report of a lock wait, as run deletion reads it: the message
/// names a lock wait timeout or error 1205, or the SQL state is HY000.
pub fn is_lock_wait(code: Option<String>, message: &str) -> (r: bool)
    ensures
        r == (text_contains(message@, "Lock wait timeout"@) || text_contains(message@, "1205"@)
            || view_opt(code) == Some("HY000"@)),
{
    let is_code = match &code {
        Some(c) => eq_lit(&chars_of(c.as_str()), "HY000"),
        None => false,
    };
    contains_text(message, "Lock wait timeout") || contains_text(message, "1205") || is_code
}

/// A database report that an index already exists: code 1061 or 42000 and
/// `Duplicate key name` in the message.
pub fn is_duplicate_index_error(code: Option<String>, message: &str) -> (r: bool)
    ensures
        r == ((view_opt(code) == Some("1061"@) || view_opt(code) == Some("42000"@))
            && text_contains(message@, "Duplicate key name"@)),
{
    let is_code = match &code {
        Some(c) => {
            let cc = chars_of(c.as_str());
            eq_lit(&cc, "1061") || eq_lit(&cc, "42000")
        }
        None => false,
    };
    is_code && contains_text(message, "Duplicate key name")
}

/// The trade direction of a setup as a sign: against a bearish market the
/// pattern trades short, and the inverse mode turns the direction around.
pub open spec fn direction_sign_of(market: Seq<char>, direction_mode: Seq<char>) -> int {
    let bearish = ascii_lower(market) == ascii_lower("Bearish"@);
    let inverse = direction_mode == "inverse_pattern"@;
    if bearish != inverse { -1 } else { 1 }
}

/// The direction a setup is traded in under a direction mode: 1 long, -1 short.
pub fn direction_sign(market: &str, direction_mode: &str) -> (r: i64)
    ensures r == direction_sign_of(market@, direction_mode@),
{
    let bearish = crate::sisters::eq_ignore_ascii_case(market, "Bearish");
    let inverse = eq_lit(&chars_of(direction_mode), "inverse_pattern");
    if bearish != inverse { -1 } else { 1 }
}

} // verus!
