//! The playbook builder: its options, the manual family skips laid over the
//! routed families, and the per-root totals behind the symbol gate.
use vstd::prelude::*;
use vstd::string::StringExecFns;
use crate::cli::{arg_clean, arg_value_trimmed, either, flag_given, has_flag, int_or_default_spec, or_else, parse_int_or_default};
use crate::numeric::IntTextError;
use crate::options::view_opt;
use crate::sisters::eq_ignore_ascii_case;
use crate::text::{ascii_lower, chars_of, string_of, trim, trim_chars};
use crate::routing::manual_skip_reason;
use crate::symbols::{clean_symbol, clean_symbol_text};

verus! {

/// The playbook builder's options that are not rates or R multiples.
pub struct PlaybookOptions {
    pub build_id: Option<String>,
    pub source_scope: String,
    pub source_timeframe: Option<String>,
    pub min_train_tests: i64,
    pub prop_filter: bool,
    pub trade_min_tests: i64,
    pub watchlist_min_tests: i64,
    pub symbol_filter: bool,
    pub symbol_min_tests: i64,
    pub one_trade_at_a_time: bool,
    pub one_trade_per_root_symbol: bool,
    pub one_trade_per_minute: bool,
    pub trade_cooldown_minutes: i64,
    pub daily_loss_lockout: bool,
    pub near_pass_protection: bool,
    pub loss_cluster_day_lockout: bool,
    pub loss_cluster_loss_count: i64,
    pub loss_cluster_window_minutes: i64,
    pub ignore_manual_family_skips: bool,
}

/// The integer options of the playbook builder in the order they are read,
/// each from its value or from its default text.
pub open spec fn playbook_ints(args: Seq<String>) -> Seq<Result<int, IntTextError>> {
    seq![
        int_or_default_spec(arg_clean(args, "--min-train-tests"@), "25"@),
        int_or_default_spec(arg_clean(args, "--trade-min-tests"@), "50"@),
        int_or_default_spec(arg_clean(args, "--watchlist-min-tests"@), "25"@),
        int_or_default_spec(arg_clean(args, "--symbol-min-tests"@), "1000"@),
        int_or_default_spec(or_else(arg_clean(args, "--trade-cooldown-minutes"@), arg_clean(args, "--min-trade-gap-minutes"@)), "0"@),
        int_or_default_spec(arg_clean(args, "--loss-cluster-loss-count"@), "3"@),
        int_or_default_spec(arg_clean(args, "--loss-cluster-window-minutes"@), "60"@),
    ]
}

/// The source timeframe option: `--source-timeframe`, else `--timeframe`;
/// `all` in any ASCII case means no filter.
pub open spec fn playbook_timeframe(args: Seq<String>) -> Option<Seq<char>> {
    match or_else(arg_clean(args, "--source-timeframe"@), arg_clean(args, "--timeframe"@)) {
        Some(t) if ascii_lower(t) != ascii_lower("all"@) => Some(t),
        _ => None,
    }
}

pub open spec fn at_least(x: int, lo: int) -> int {
    if x < lo { lo } else { x }
}

pub open spec fn playbook_options_ok(args: Seq<String>, r: Result<PlaybookOptions, IntTextError>) -> bool {
    let ints = playbook_ints(args);
    match r {
        Err(e) => exists|k: int| 0 <= k < 7 && #[trigger] ints[k] == Err::<int, IntTextError>(e)
            && forall|j: int| 0 <= j < k ==> (#[trigger] ints[j]) is Ok,
        Ok(o) => {
            &&& forall|j: int| 0 <= j < 7 ==> (#[trigger] ints[j]) is Ok
            &&& view_opt(o.build_id) == or_else(arg_clean(args, "--build-id"@), arg_clean(args, "--train-run-id"@))
            &&& o.source_scope@ == (match arg_clean(args, "--source"@) { Some(s) => s, None => "futures"@ })
            &&& view_opt(o.source_timeframe) == playbook_timeframe(args)
            &&& o.min_train_tests == ints[0]->Ok_0
            &&& o.prop_filter == flag_given(args, "--prop-filter"@)
            &&& o.trade_min_tests == ints[1]->Ok_0
            &&& o.watchlist_min_tests == ints[2]->Ok_0
            &&& o.symbol_filter == flag_given(args, "--symbol-filter"@)
            &&& o.symbol_min_tests == ints[3]->Ok_0
            &&& o.one_trade_at_a_time == flag_given(args, "--one-trade-at-a-time"@)
            &&& o.one_trade_per_root_symbol == flag_given(args, "--one-trade-per-root-symbol"@)
            &&& o.one_trade_per_minute == flag_given(args, "--one-trade-per-minute"@)
            &&& o.trade_cooldown_minutes == at_least(ints[4]->Ok_0, 0)
            &&& o.daily_loss_lockout == flag_given(args, "--daily-loss-lockout"@)
            &&& o.near_pass_protection == flag_given(args, "--near-pass-protection"@)
            &&& o.loss_cluster_day_lockout == flag_given(args, "--loss-cluster-day-lockout"@)
            &&& o.loss_cluster_loss_count == at_least(ints[5]->Ok_0, 1)
            &&& o.loss_cluster_window_minutes == at_least(ints[6]->Ok_0, 1)
            &&& o.ignore_manual_family_skips == flag_given(args, "--ignore-manual-family-skips"@)
        }
    }
}

/// Reads the playbook builder's options (all but its rates and R
/// multiples). The first integer option whose text is no integer is refused.
pub fn parse_playbook_options(args: &Vec<String>) -> (r: Result<PlaybookOptions, IntTextError>)
    ensures playbook_options_ok(args@, r),
{
    let ghost ints = playbook_ints(args@);
    let min_train_tests = match parse_int_or_default(arg_value_trimmed(args, "--min-train-tests"), "25") {
        Ok(x) => x,
        Err(e) => { proof { assert(ints[0] is Err); } return Err(e); }
    };
    let trade_min_tests = match parse_int_or_default(arg_value_trimmed(args, "--trade-min-tests"), "50") {
        Ok(x) => x,
        Err(e) => { proof { assert(ints[1] is Err); assert(ints[0] is Ok); } return Err(e); }
    };
    let watchlist_min_tests = match parse_int_or_default(arg_value_trimmed(args, "--watchlist-min-tests"), "25") {
        Ok(x) => x,
        Err(e) => { proof { assert(ints[2] is Err); assert(ints[1] is Ok); } return Err(e); }
    };
    let symbol_min_tests = match parse_int_or_default(arg_value_trimmed(args, "--symbol-min-tests"), "1000") {
        Ok(x) => x,
        Err(e) => { proof { assert(ints[3] is Err); assert(ints[2] is Ok); } return Err(e); }
    };
    let cooldown = match parse_int_or_default(
        either(arg_value_trimmed(args, "--trade-cooldown-minutes"), arg_value_trimmed(args, "--min-trade-gap-minutes")),
        "0",
    ) {
        Ok(x) => x,
        Err(e) => { proof { assert(ints[4] is Err); assert(ints[3] is Ok); } return Err(e); }
    };
    let loss_count = match parse_int_or_default(arg_value_trimmed(args, "--loss-cluster-loss-count"), "3") {
        Ok(x) => x,
        Err(e) => { proof { assert(ints[5] is Err); assert(ints[4] is Ok); } return Err(e); }
    };
    let loss_window = match parse_int_or_default(arg_value_trimmed(args, "--loss-cluster-window-minutes"), "60") {
        Ok(x) => x,
        Err(e) => { proof { assert(ints[6] is Err); assert(ints[5] is Ok); } return Err(e); }
    };
    let source_scope = match arg_value_trimmed(args, "--source") {
        Some(s) => s,
        None => String::from_str("futures"),
    };
    let source_timeframe = match either(arg_value_trimmed(args, "--source-timeframe"), arg_value_trimmed(args, "--timeframe")) {
        Some(t) => if eq_ignore_ascii_case(t.as_str(), "all") { None } else { Some(t) },
        None => None,
    };
    Ok(PlaybookOptions {
        build_id: either(arg_value_trimmed(args, "--build-id"), arg_value_trimmed(args, "--train-run-id")),
        source_scope,
        source_timeframe,
        min_train_tests,
        prop_filter: has_flag(args, "--prop-filter"),
        trade_min_tests,
        watchlist_min_tests,
        symbol_filter: has_flag(args, "--symbol-filter"),
        symbol_min_tests,
        one_trade_at_a_time: has_flag(args, "--one-trade-at-a-time"),
        one_trade_per_root_symbol: has_flag(args, "--one-trade-per-root-symbol"),
        one_trade_per_minute: has_flag(args, "--one-trade-per-minute"),
        trade_cooldown_minutes: if cooldown < 0 { 0 } else { cooldown },
        daily_loss_lockout: has_flag(args, "--daily-loss-lockout"),
        near_pass_protection: has_flag(args, "--near-pass-protection"),
        loss_cluster_day_lockout: has_flag(args, "--loss-cluster-day-lockout"),
        loss_cluster_loss_count: if loss_count < 1 { 1 } else { loss_count },
        loss_cluster_window_minutes: if loss_window < 1 { 1 } else { loss_window },
        ignore_manual_family_skips: has_flag(args, "--ignore-manual-family-skips"),
    })
}

/// The parts of a routed family that the manual skips and the symbol gate
/// read and change.
pub struct RouteChoice {
    pub family_key: String,
    pub template_uid: String,
    pub route_status: String,
    pub status_reason: String,
}

/// No key occurs twice among the pairs.
pub open spec fn keys_distinct(s: Seq<(String, String)>) -> bool {
    forall|i: int, j: int| 0 <= i < j < s.len() ==> s[i].0@ != s[j].0@
}

/// No family occurs twice among the choices.
pub open spec fn families_distinct(c: Seq<RouteChoice>) -> bool {
    forall|i: int, j: int| 0 <= i < j < c.len() ==> c[i].family_key@ != c[j].family_key@
}

/// The pairs read as a map from key to value, a later pair overriding an
/// earlier one.
pub open spec fn pairs_map(s: Seq<(String, String)>) -> Map<Seq<char>, Seq<char>>
    decreases s.len(),
{
    if s.len() == 0 {
        Map::empty()
    } else {
        pairs_map(s.drop_last()).insert(s.last().0@, s.last().1@)
    }
}

/// The manual skips of the first `n` rows: each family key trimmed, blank
/// keys dropped, and a later reason for a key replacing an earlier one.
pub open spec fn skip_map(rows: Seq<(String, String)>, n: int) -> Map<Seq<char>, Seq<char>>
    decreases n,
{
    if n <= 0 {
        Map::empty()
    } else {
        let m = skip_map(rows, n - 1);
        let k = trim(rows[n - 1].0@);
        if k.len() > 0 { m.insert(k, rows[n - 1].1@) } else { m }
    }
}

/// The status reason of a manually skipped family.
pub open spec fn skip_reason_text(reason: Seq<char>) -> Seq<char> {
    if trim(reason).len() == 0 { "manual family skip"@ } else { "manual family skip: "@ + trim(reason) }
}

proof fn lemma_pairs_map_push(s: Seq<(String, String)>, p: (String, String))
    ensures pairs_map(s.push(p)) == pairs_map(s).insert(p.0@, p.1@),
{
    assert(s.push(p).drop_last() =~= s);
}

proof fn lemma_pairs_map_update(s: Seq<(String, String)>, idx: int, p: (String, String))
    requires
        keys_distinct(s),
        0 <= idx < s.len(),
        s[idx].0@ == p.0@,
    ensures
        pairs_map(s.update(idx, p)) == pairs_map(s).insert(p.0@, p.1@),
        keys_distinct(s.update(idx, p)),
    decreases s.len(),
{
    let u = s.update(idx, p);
    if idx == s.len() - 1 {
        assert(u.drop_last() =~= s.drop_last());
        assert(pairs_map(u) =~= pairs_map(s).insert(p.0@, p.1@));
    } else {
        assert(u.drop_last() =~= s.drop_last().update(idx, p));
        lemma_pairs_map_update(s.drop_last(), idx, p);
        assert(s.last().0@ != p.0@);
        assert(pairs_map(u) =~= pairs_map(s).insert(p.0@, p.1@));
    }
}

proof fn lemma_pairs_map_absent(s: Seq<(String, String)>, k: Seq<char>)
    requires forall|j: int| 0 <= j < s.len() ==> (#[trigger] s[j]).0@ != k,
    ensures !pairs_map(s).contains_key(k),
    decreases s.len(),
{
    if s.len() > 0 {
        lemma_pairs_map_absent(s.drop_last(), k);
    }
}

fn position_of_key(pairs: &Vec<(String, String)>, key: &str) -> (r: Option<usize>)
    ensures
        match r {
            Some(j) => j < pairs@.len() && pairs@[j as int].0@ == key@,
            None => forall|jj: int| 0 <= jj < pairs@.len() ==> (#[trigger] pairs@[jj]).0@ != key@,
        },
{
    let mut j: usize = 0;
    while j < pairs.len()
        invariant
            j <= pairs@.len(),
            forall|jj: int| 0 <= jj < j ==> (#[trigger] pairs@[jj]).0@ != key@,
        decreases pairs.len() - j,
    {
        if crate::text::str_eq(pairs[j].0.as_str(), key) {
            return Some(j);
        }
        j = j + 1;
    }
    None
}

fn position_of_family(choices: &Vec<RouteChoice>, key: &str) -> (r: Option<usize>)
    ensures
        match r {
            Some(i) => i < choices@.len() && choices@[i as int].family_key@ == key@,
            None => forall|ii: int| 0 <= ii < choices@.len() ==> (#[trigger] choices@[ii]).family_key@ != key@,
        },
{
    let mut i: usize = 0;
    while i < choices.len()
        invariant
            i <= choices@.len(),
            forall|ii: int| 0 <= ii < i ==> (#[trigger] choices@[ii]).family_key@ != key@,
        decreases choices.len() - i,
    {
        if crate::text::str_eq(choices[i].family_key.as_str(), key) {
            return Some(i);
        }
        i = i + 1;
    }
    None
}

/// The manual skips loaded from their rows: family keys trimmed, blank
/// ones dropped, one entry per family with the last reason given for it.
pub fn manual_skip_list(rows: &Vec<(String, String)>) -> (r: Vec<(String, String)>)
    ensures
        keys_distinct(r@),
        pairs_map(r@) == skip_map(rows@, rows@.len() as int),
{
    let mut out: Vec<(String, String)> = Vec::new();
    let mut i: usize = 0;
    while i < rows.len()
        invariant
            i <= rows@.len(),
            keys_distinct(out@),
            pairs_map(out@) == skip_map(rows@, i as int),
        decreases rows.len() - i,
    {
        let k = trim_chars(&chars_of(rows[i].0.as_str()));
        if k.len() > 0 {
            let key = string_of(&k);
            let reason = rows[i].1.clone();
            let at = position_of_key(&out, key.as_str());
            if let Some(j) = at {
                proof { lemma_pairs_map_update(out@, j as int, (key, reason)); }
                out.set(j, (key, reason));
            } else {
                proof { lemma_pairs_map_push(out@, (key, reason)); }
                out.push((key, reason));
            }
        }
        i = i + 1;
    }
    out
}

/// How many of the first `n` skips name a family among the choices.
pub open spec fn matched_count(skips: Seq<(String, String)>, choices: Seq<RouteChoice>, n: int) -> int
    decreases n,
{
    if n <= 0 {
        0
    } else {
        matched_count(skips, choices, n - 1)
            + if exists|i: int| 0 <= i < choices.len() && (#[trigger] choices[i]).family_key@ == skips[n - 1].0@ { 1int } else { 0 }
    }
}

/// What the skips make of one choice: a family with a manual skip is routed
/// to SKIP with the skip's reason; any other is left as it was.
pub open spec fn skipped_as(old_c: RouteChoice, new_c: RouteChoice, m: Map<Seq<char>, Seq<char>>) -> bool {
    &&& new_c.family_key@ == old_c.family_key@
    &&& new_c.template_uid@ == old_c.template_uid@
    &&& if m.contains_key(old_c.family_key@) {
        &&& new_c.route_status@ == "SKIP"@
        &&& new_c.status_reason@ == skip_reason_text(m[old_c.family_key@])
    } else {
        &&& new_c.route_status@ == old_c.route_status@
        &&& new_c.status_reason@ == old_c.status_reason@
    }
}

/// Lays the manual family skips over the routed families; returns how many
/// skips named a routed family.
pub fn apply_manual_family_skips(choices: &mut Vec<RouteChoice>, skips: &Vec<(String, String)>) -> (applied: usize)
    requires
        keys_distinct(skips@),
        families_distinct(old(choices)@),
    ensures
        final(choices)@.len() == old(choices)@.len(),
        forall|i: int| 0 <= i < old(choices)@.len() ==> skipped_as(old(choices)@[i], #[trigger] final(choices)@[i], pairs_map(skips@)),
        applied == matched_count(skips@, old(choices)@, skips@.len() as int),
{
    let ghost orig = choices@;
    let mut applied: usize = 0;
    let mut j: usize = 0;
    while j < skips.len()
        invariant
            j <= skips@.len(),
            keys_distinct(skips@),
            families_distinct(orig),
            choices@.len() == orig.len(),
            applied <= j,
            applied == matched_count(skips@, orig, j as int),
            forall|i: int| 0 <= i < orig.len() ==> skipped_as(orig[i], #[trigger] choices@[i], pairs_map(skips@.take(j as int))),
        decreases skips.len() - j,
    {
        let ghost before = choices@;
        let ghost m0 = pairs_map(skips@.take(j as int));
        proof {
            assert(skips@.take(j as int + 1) =~= skips@.take(j as int).push(skips@[j as int]));
            lemma_pairs_map_push(skips@.take(j as int), skips@[j as int]);
            lemma_pairs_map_absent(skips@.take(j as int), skips@[j as int].0@);
        }
        let key = &skips[j].0;
        let at = position_of_family(choices, key.as_str());
        if let Some(i) = at {
            let updated = RouteChoice {
                family_key: choices[i].family_key.clone(),
                template_uid: choices[i].template_uid.clone(),
                route_status: String::from_str("SKIP"),
                status_reason: manual_skip_reason(skips[j].1.as_str()),
            };
            choices.set(i, updated);
            applied = applied + 1;
            proof {
                reveal_strlit("SKIP");
                assert(orig[i as int].family_key@ == key@);
                assert forall|ii: int| 0 <= ii < orig.len() implies skipped_as(orig[ii], #[trigger] choices@[ii], pairs_map(skips@.take(j as int + 1))) by {
                    if ii != i as int {
                        assert(orig[ii].family_key@ != orig[i as int].family_key@);
                        assert(choices@[ii] == before[ii]);
                    }
                }
            }
        } else {
            proof {
                assert(!(exists|ii: int| 0 <= ii < orig.len() && (#[trigger] orig[ii]).family_key@ == skips@[j as int].0@)) by {
                    assert forall|ii: int| 0 <= ii < orig.len() implies (#[trigger] orig[ii]).family_key@ != skips@[j as int].0@ by {
                        assert(choices@[ii].family_key@ == orig[ii].family_key@);
                    }
                }
            }
        }
        j = j + 1;
    }
    proof { assert(skips@.take(skips@.len() as int) =~= skips@); }
    applied
}

/// Whether one of the first `n` choices is routed to TRADE with template `uid`.
pub open spec fn traded_uid(choices: Seq<RouteChoice>, n: int, uid: Seq<char>) -> bool {
    exists|i: int| 0 <= i < n && i < choices.len() && #[trigger] choices[i].route_status@ == "TRADE"@ && choices[i].template_uid@ == uid
}

/// Whether `uid` is among the texts.
pub open spec fn listed(v: Seq<String>, uid: Seq<char>) -> bool {
    exists|k: int| 0 <= k < v.len() && #[trigger] v[k]@ == uid
}

/// The template uids of the families routed to TRADE, each once, in the
/// order the families come.
pub fn trade_template_uids(choices: &Vec<RouteChoice>) -> (r: Vec<String>)
    ensures
        forall|a: int, b: int| 0 <= a < b < r@.len() ==> r@[a]@ != r@[b]@,
        forall|k: int| 0 <= k < r@.len() ==> traded_uid(choices@, choices@.len() as int, #[trigger] r@[k]@),
        forall|i: int| 0 <= i < choices@.len() && #[trigger] choices@[i].route_status@ == "TRADE"@
            ==> listed(r@, choices@[i].template_uid@),
{
    let mut out: Vec<String> = Vec::new();
    let mut i: usize = 0;
    while i < choices.len()
        invariant
            i <= choices@.len(),
            forall|a: int, b: int| 0 <= a < b < out@.len() ==> out@[a]@ != out@[b]@,
            forall|k: int| 0 <= k < out@.len() ==> traded_uid(choices@, i as int, #[trigger] out@[k]@),
            forall|ii: int| 0 <= ii < i && #[trigger] choices@[ii].route_status@ == "TRADE"@
                ==> listed(out@, choices@[ii].template_uid@),
        decreases choices.len() - i,
    {
        let ghost before = out@;
        proof {
            assert forall|k: int| 0 <= k < before.len() implies traded_uid(choices@, i as int + 1, #[trigger] before[k]@) by {
                let w = choose|w: int| 0 <= w < i as int && w < choices@.len() && #[trigger] choices@[w].route_status@ == "TRADE"@ && choices@[w].template_uid@ == before[k]@;
                assert(choices@[w].route_status@ == "TRADE"@);
            }
        }
        if crate::text::eq_lit(&chars_of(choices[i].route_status.as_str()), "TRADE") {
            let uid = choices[i].template_uid.clone();
            proof { assert(choices@[i as int].route_status@ == "TRADE"@); }
            if !contains_string(&out, uid.as_str()) {
                out.push(uid);
                proof {
                    assert forall|k: int| 0 <= k < out@.len() implies traded_uid(choices@, i as int + 1, #[trigger] out@[k]@) by {
                        if k < before.len() {
                            assert(out@[k] == before[k]);
                        }
                    }
                    assert forall|ii: int| 0 <= ii < i + 1 && #[trigger] choices@[ii].route_status@ == "TRADE"@
                        implies listed(out@, choices@[ii].template_uid@) by {
                        if ii < i {
                            let kk = choose|kk: int| 0 <= kk < before.len() && #[trigger] before[kk]@ == choices@[ii].template_uid@;
                            assert(out@[kk] == before[kk]);
                        } else {
                            assert(out@[before.len() as int]@ == choices@[ii].template_uid@);
                        }
                    }
                }
            }
        }
        i = i + 1;
    }
    out
}

fn contains_string(v: &Vec<String>, s: &str) -> (r: bool)
    ensures r == listed(v@, s@),
{
    let mut k: usize = 0;
    while k < v.len()
        invariant
            k <= v@.len(),
            forall|kk: int| 0 <= kk < k ==> (#[trigger] v@[kk])@ != s@,
        decreases v.len() - k,
    {
        if crate::text::str_eq(v[k].as_str(), s) {
            return true;
        }
        k = k + 1;
    }
    false
}

/// Outcome counts of one root symbol summed over the traded templates.
pub struct GateTotals {
    pub root_symbol: String,
    pub eval_count: i64,
    pub pass_count: i64,
    pub fail_count: i64,
    pub no_entry_count: i64,
}

/// A root symbol as the symbol gate files it: trimmed and upper-cased;
/// none when blank, `UNKNOWN` or `N/A`.
pub open spec fn gate_root_text(raw: Seq<char>) -> Option<Seq<char>> {
    let u = clean_symbol_text(raw);
    if u.len() == 0 || u == "UNKNOWN"@ || u == "N/A"@ { None } else { Some(u) }
}

/// The root symbol a condition row is filed under by the symbol gate.
pub fn gate_root(raw: &str) -> (r: Option<String>)
    ensures view_opt(r) == gate_root_text(raw@),
{
    let u = clean_symbol(raw);
    let v = chars_of(u.as_str());
    if v.len() == 0 || crate::text::eq_lit(&v, "UNKNOWN") || crate::text::eq_lit(&v, "N/A") {
        None
    } else {
        Some(u)
    }
}

/// No root symbol occurs twice among the totals.
pub open spec fn roots_distinct(t: Seq<GateTotals>) -> bool {
    forall|i: int, j: int| 0 <= i < j < t.len() ==> t[i].root_symbol@ != t[j].root_symbol@
}

/// Whether adding the counts to a root's totals stays within `i64`.
pub open spec fn sums_fit(g: GateTotals, eval: i64, pass: i64, fail: i64, no_entry: i64) -> bool {
    &&& i64::MIN <= g.eval_count + eval <= i64::MAX
    &&& i64::MIN <= g.pass_count + pass <= i64::MAX
    &&& i64::MIN <= g.fail_count + fail <= i64::MAX
    &&& i64::MIN <= g.no_entry_count + no_entry <= i64::MAX
}

/// Adds one condition row's counts to its root's totals, starting the root's
/// totals when it has none yet; returns where the root's totals stand.
pub fn add_gate_counts(totals: &mut Vec<GateTotals>, root: String, eval: i64, pass: i64, fail: i64, no_entry: i64) -> (idx: usize)
    requires
        roots_distinct(old(totals)@),
        forall|i: int| 0 <= i < old(totals)@.len() && (#[trigger] old(totals)@[i]).root_symbol@ == root@
            ==> sums_fit(old(totals)@[i], eval, pass, fail, no_entry),
    ensures
        roots_distinct(final(totals)@),
        idx < final(totals)@.len(),
        final(totals)@[idx as int].root_symbol@ == root@,
        (exists|i: int| 0 <= i < old(totals)@.len() && (#[trigger] old(totals)@[i]).root_symbol@ == root@) ==> {
            &&& idx < old(totals)@.len()
            &&& old(totals)@[idx as int].root_symbol@ == root@
            &&& final(totals)@.len() == old(totals)@.len()
            &&& final(totals)@[idx as int].eval_count == old(totals)@[idx as int].eval_count + eval
            &&& final(totals)@[idx as int].pass_count == old(totals)@[idx as int].pass_count + pass
            &&& final(totals)@[idx as int].fail_count == old(totals)@[idx as int].fail_count + fail
            &&& final(totals)@[idx as int].no_entry_count == old(totals)@[idx as int].no_entry_count + no_entry
            &&& forall|k: int| 0 <= k < old(totals)@.len() && k != idx ==> #[trigger] final(totals)@[k] == old(totals)@[k]
        },
        !(exists|i: int| 0 <= i < old(totals)@.len() && (#[trigger] old(totals)@[i]).root_symbol@ == root@) ==> {
            &&& idx == old(totals)@.len()
            &&& final(totals)@.len() == old(totals)@.len() + 1
            &&& final(totals)@[idx as int].eval_count == eval
            &&& final(totals)@[idx as int].pass_count == pass
            &&& final(totals)@[idx as int].fail_count == fail
            &&& final(totals)@[idx as int].no_entry_count == no_entry
            &&& forall|k: int| 0 <= k < old(totals)@.len() ==> #[trigger] final(totals)@[k] == old(totals)@[k]
        },
{
    let mut i: usize = 0;
    while i < totals.len()
        invariant
            i <= totals@.len(),
            totals@ == old(totals)@,
            roots_distinct(old(totals)@),
            forall|ii: int| 0 <= ii < old(totals)@.len() && (#[trigger] old(totals)@[ii]).root_symbol@ == root@
                ==> sums_fit(old(totals)@[ii], eval, pass, fail, no_entry),
            forall|ii: int| 0 <= ii < i ==> (#[trigger] totals@[ii]).root_symbol@ != root@,
        decreases totals.len() - i,
    {
        if crate::text::str_eq(totals[i].root_symbol.as_str(), root.as_str()) {
            let g = GateTotals {
                root_symbol: totals[i].root_symbol.clone(),
                eval_count: totals[i].eval_count + eval,
                pass_count: totals[i].pass_count + pass,
                fail_count: totals[i].fail_count + fail,
                no_entry_count: totals[i].no_entry_count + no_entry,
            };
            let ghost before = totals@;
            totals.set(i, g);
            proof {
                assert forall|k: int| 0 <= k < before.len() && (#[trigger] before[k]).root_symbol@ == root@ implies k == i as int by {
                    if k != i as int {
                        if k < i as int { } else { assert(before[i as int].root_symbol@ != before[k].root_symbol@); }
                    }
                }
                assert forall|a: int, b: int| 0 <= a < b < totals@.len() implies totals@[a].root_symbol@ != totals@[b].root_symbol@ by {
                    assert(before[a].root_symbol@ != before[b].root_symbol@);
                }
            }
            return i;
        }
        i = i + 1;
    }
    let ghost before = totals@;
    totals.push(GateTotals { root_symbol: root, eval_count: eval, pass_count: pass, fail_count: fail, no_entry_count: no_entry });
    proof {
        assert forall|a: int, b: int| 0 <= a < b < totals@.len() implies totals@[a].root_symbol@ != totals@[b].root_symbol@ by {
            if b < before.len() {
                assert(before[a].root_symbol@ != before[b].root_symbol@);
            }
        }
    }
    i
}

} // verus!
