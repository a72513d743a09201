//! Command-line arguments: looking up option values and flags, and reading
//! the options of the template creator, the event assigner and the outcome
//! labeller into plain values.
use vstd::prelude::*;
use vstd::string::StringExecFns;
use crate::text::{chars_of, eq_lit, lower_chars, str_eq, string_of, trim, trim_chars, ascii_lower};
use crate::numeric::{parse_i64, parse_i64_spec, IntTextError, int_text, int_chars};
use crate::options::{
    direction_mode_of, entry_kind_of, folded, fold_text, normalize_direction_mode,
    normalize_entry_kind, normalize_outcome_timeframe, normalize_risk_basis, normalize_source,
    normalize_source_scope, normalize_timeframe, outcome_timeframe_of, risk_basis_of, source_of,
    source_scope_of, timeframe_of, view_opt,
};
use crate::conditions::clean_optional;
use crate::symbols::{clean_symbol_text, clean_symbol};

verus! {

/// The value after the first occurrence of `name` at or after position `i`,
/// where a value follows it.
pub open spec fn arg_after(args: Seq<String>, name: Seq<char>, i: int) -> Option<Seq<char>>
    decreases args.len() - i,
{
    if i < 0 || i + 1 >= args.len() {
        None
    } else if args[i]@ == name {
        Some(args[i + 1]@)
    } else {
        arg_after(args, name, i + 1)
    }
}

/// The value given for an option: the argument after its first occurrence.
pub open spec fn arg_text(args: Seq<String>, name: Seq<char>) -> Option<Seq<char>> {
    arg_after(args, name, 0)
}

/// The value of an option, or `None` when it is not given with a value.
pub fn arg_value(args: &Vec<String>, name: &str) -> (r: Option<String>)
    ensures view_opt(r) == arg_text(args@, name@),
{
    let mut i: usize = 0;
    while i < args.len() && i + 1 < args.len()
        invariant
            i <= args.len(),
            arg_text(args@, name@) == arg_after(args@, name@, i as int),
        decreases args.len() - i,
    {
        if str_eq(args[i].as_str(), name) {
            return Some(args[i + 1].clone());
        }
        i = i + 1;
    }
    None
}

/// The value of an option, trimmed; `None` when absent or blank.
pub open spec fn arg_clean(args: Seq<String>, name: Seq<char>) -> Option<Seq<char>> {
    clean_optional(arg_text(args, name))
}

/// The value of an option trimmed, or `None` when it is absent or blank.
pub fn arg_value_trimmed(args: &Vec<String>, name: &str) -> (r: Option<String>)
    ensures view_opt(r) == arg_clean(args@, name@),
{
    match arg_value(args, name) {
        None => None,
        Some(v) => {
            let t = trim_chars(&chars_of(v.as_str()));
            if t.len() == 0 { None } else { Some(string_of(&t)) }
        }
    }
}

/// The rest of the first argument that begins with `prefix`, from position `i` on.
pub open spec fn assigned_after(args: Seq<String>, prefix: Seq<char>, i: int) -> Option<Seq<char>>
    decreases args.len() - i,
{
    if i < 0 || i >= args.len() {
        None
    } else if prefix.len() <= args[i]@.len() && args[i]@.take(prefix.len() as int) == prefix {
        Some(args[i]@.skip(prefix.len() as int))
    } else {
        assigned_after(args, prefix, i + 1)
    }
}

/// An option given as `name value` or, failing that, as `name=value`.
pub open spec fn arg_or_assigned_text(args: Seq<String>, name: Seq<char>) -> Option<Seq<char>> {
    match arg_text(args, name) {
        Some(v) => Some(v),
        None => assigned_after(args, name + "="@, 0),
    }
}

/// The value of an option written either `--name value` or `--name=value`.
pub fn arg_value_or_assigned(args: &Vec<String>, name: &str) -> (r: Option<String>)
    ensures view_opt(r) == arg_or_assigned_text(args@, name@),
{
    let first = arg_value(args, name);
    if let Some(v) = first {
        return Some(v);
    }
    let mut prefix = chars_of(name);
    prefix.push('=');
    proof { assert(prefix@ == name@ + "="@) by { reveal_strlit("="); assert(prefix@ =~= name@ + "="@); } }
    let mut i: usize = 0;
    while i < args.len()
        invariant
            i <= args.len(),
            prefix@ == name@ + "="@,
            arg_text(args@, name@) is None,
            assigned_after(args@, prefix@, 0) == assigned_after(args@, prefix@, i as int),
        decreases args.len() - i,
    {
        let a = chars_of(args[i].as_str());
        if crate::text::starts_with_chars(&a, &prefix) {
            let rest = crate::text::slice_chars(&a, prefix.len(), a.len());
            proof { assert(a@.subrange(prefix@.len() as int, a@.len() as int) =~= a@.skip(prefix@.len() as int)); }
            return Some(string_of(&rest));
        }
        i = i + 1;
    }
    None
}

pub open spec fn flag_given(args: Seq<String>, name: Seq<char>) -> bool {
    exists|k: int| 0 <= k < args.len() && #[trigger] args[k]@ == name
}

/// Whether a flag is among the arguments.
pub fn has_flag(args: &Vec<String>, name: &str) -> (r: bool)
    ensures r == flag_given(args@, name@),
{
    let mut i: usize = 0;
    while i < args.len()
        invariant
            i <= args.len(),
            forall|k: int| 0 <= k < i ==> args@[k]@ != name@,
        decreases args.len() - i,
    {
        if str_eq(args[i].as_str(), name) {
            return true;
        }
        i = i + 1;
    }
    false
}

/// Whether help was asked for with `--help` or `-h`.
pub fn wants_help(args: &Vec<String>) -> (r: bool)
    ensures r == (flag_given(args@, "--help"@) || flag_given(args@, "-h"@)),
{
    has_flag(args, "--help") || has_flag(args, "-h")
}

/// The first of two optional values that is present.
pub open spec fn or_else(a: Option<Seq<char>>, b: Option<Seq<char>>) -> Option<Seq<char>> {
    if a is Some { a } else { b }
}

/// An option's value read as an integer, where it is one.
pub open spec fn int_of(v: Option<Seq<char>>) -> Option<int> {
    match v {
        Some(t) => match parse_i64_spec(t) {
            Ok(x) => Some(x),
            Err(_) => None,
        },
        None => None,
    }
}

fn parse_opt(v: &Option<String>) -> (r: Option<i64>)
    ensures
        match int_of(view_opt(*v)) {
            Some(x) => r == Some(x as i64),
            None => r is None,
        },
{
    match v {
        Some(t) => match parse_i64(t.as_str()) {
            Ok(x) => Some(x),
            Err(_) => None,
        },
        None => None,
    }
}

pub open spec fn clamp(x: int, lo: int, hi: int) -> int {
    if x < lo { lo } else if x > hi { hi } else { x }
}

/// A year option: an integer from 1900 to 2200.
pub open spec fn year_of(v: Option<Seq<char>>) -> Option<int> {
    match int_of(v) {
        Some(y) if 1900 <= y <= 2200 => Some(y),
        _ => None,
    }
}

/// The options of the template creator that are not prices.
pub struct TemplateRunOptions {
    pub source_scope: String,
    pub source_timeframe: Option<String>,
    pub period_year: i64,
    pub start_year: i64,
    pub end_year: i64,
    pub limit: i64,
    pub event_result_policy: String,
    pub result_storage: String,
    pub risk_basis: String,
    pub max_hold_multiple: i64,
    pub entry_kind: String,
    pub entry_offset: Option<i64>,
    pub direction_mode: Option<String>,
    pub skip_condition_stats: bool,
    pub family_key: Option<String>,
    pub symbol: Option<String>,
    pub template_source_run_id: Option<String>,
    pub output_run_id: Option<String>,
}

/// The year range of the template creator: `--start-year`/`--end-year`
/// (each falling back to `--year`, then 2025) when either is given, else
/// `--year` (or 2025) for both; put in order.
pub open spec fn year_range(args: Seq<String>) -> (int, int) {
    let single = year_of(arg_text(args, "--year"@));
    let start = year_of(or_else(arg_text(args, "--start-year"@), arg_text(args, "--from-year"@)));
    let end = year_of(or_else(arg_text(args, "--end-year"@), arg_text(args, "--to-year"@)));
    let fallback = match single { Some(y) => y, None => 2025 };
    let s = if start is Some || end is Some { match start { Some(y) => y, None => fallback } } else { fallback };
    let e = if start is Some || end is Some { match end { Some(y) => y, None => fallback } } else { fallback };
    if s > e { (e, s) } else { (s, e) }
}

pub open spec fn choice_of(v: Option<Seq<char>>, a: Seq<char>, b: Seq<char>) -> Option<Seq<char>> {
    match v {
        Some(t) if folded(t) == a || folded(t) == b => Some(folded(t)),
        _ => None,
    }
}

pub open spec fn template_options_ok(args: Seq<String>, o: TemplateRunOptions) -> bool {
    let (s, e) = year_range(args);
    &&& o.source_scope@ == source_scope_of(arg_text(args, "--source"@))
    &&& view_opt(o.source_timeframe) == timeframe_of(or_else(arg_text(args, "--timeframe"@), arg_text(args, "--tf"@)))
    &&& o.start_year == s && o.end_year == e
    &&& o.period_year == (if s == e { s } else { 0 })
    &&& o.limit == clamp(match int_of(arg_text(args, "--limit"@)) { Some(x) => x, None => 100 }, 0, 1000000)
    &&& o.event_result_policy@ == (match choice_of(arg_text(args, "--event-result-policy"@), "first"@, "best"@) { Some(t) => t, None => "first"@ })
    &&& o.result_storage@ == (match choice_of(or_else(arg_text(args, "--result-storage"@), arg_text(args, "--storage"@)), "summary-only"@, "full"@) {
            Some(t) => t,
            None => if flag_given(args, "--store-result-rows"@) { "full"@ } else { "summary-only"@ },
        })
    &&& o.risk_basis@ == risk_basis_of(arg_text(args, "--risk-basis"@))
    &&& o.max_hold_multiple == clamp(match int_of(or_else(arg_text(args, "--max-hold-multiple"@), arg_text(args, "--hold-multiple"@))) { Some(x) => x, None => 5 }, 1, 50)
    &&& o.entry_kind@ == entry_kind_of(or_else(or_else(arg_text(args, "--entry-kind"@), arg_text(args, "--entry"@)), arg_text(args, "--entry-type"@)))
    &&& o.entry_offset == (match int_of(or_else(arg_text(args, "--entry-offset"@), arg_text(args, "--offset"@))) {
            Some(x) if x > 0 => Some(x as i64),
            _ => None,
        })
    &&& view_opt(o.direction_mode) == direction_mode_of(or_else(or_else(arg_text(args, "--direction-mode"@), arg_text(args, "--direction"@)), arg_text(args, "--trade-direction-mode"@)))
    &&& o.skip_condition_stats == flag_given(args, "--skip-condition-stats"@)
    &&& view_opt(o.family_key) == clean_optional(or_else(arg_text(args, "--family"@), arg_text(args, "--family-key"@)))
    &&& view_opt(o.symbol) == clean_optional(arg_text(args, "--symbol"@))
    &&& view_opt(o.template_source_run_id) == clean_optional(or_else(arg_text(args, "--template-source-run-id"@), arg_text(args, "--existing-template-run-id"@)))
    &&& view_opt(o.output_run_id) == clean_optional(or_else(arg_text(args, "--output-run-id"@), arg_text(args, "--append-to-run-id"@)))
}

pub(crate) fn either(a: Option<String>, b: Option<String>) -> (r: Option<String>)
    ensures view_opt(r) == or_else(view_opt(a), view_opt(b)),
{
    if a.is_some() { a } else { b }
}

fn year_arg(v: Option<String>) -> (r: Option<i64>)
    ensures
        match year_of(view_opt(v)) {
            Some(y) => r == Some(y as i64),
            None => r is None,
        },
{
    match parse_opt(&v) {
        Some(y) => if 1900 <= y && y <= 2200 { Some(y) } else { None },
        None => None,
    }
}

fn clean_opt(v: Option<String>) -> (r: Option<String>)
    ensures view_opt(r) == clean_optional(view_opt(v)),
{
    match v {
        None => None,
        Some(s) => {
            let t = trim_chars(&chars_of(s.as_str()));
            if t.len() == 0 { None } else { Some(string_of(&t)) }
        }
    }
}

fn choice(v: Option<String>, a: &str, b: &str) -> (r: Option<String>)
    ensures view_opt(r) == choice_of(view_opt(v), a@, b@),
{
    match v {
        None => None,
        Some(s) => {
            let f = fold_text(s.as_str());
            if eq_lit(&f, a) || eq_lit(&f, b) { Some(string_of(&f)) } else { None }
        }
    }
}

/// Reads the template creator's options (all but its price multiples).
pub fn parse_template_options(args: &Vec<String>) -> (o: TemplateRunOptions)
    ensures template_options_ok(args@, o),
{
    let source_scope = normalize_source_scope(arg_value(args, "--source"));
    let source_timeframe = normalize_timeframe(either(arg_value(args, "--timeframe"), arg_value(args, "--tf")));
    let single_year = year_arg(arg_value(args, "--year"));
    let parsed_start = year_arg(either(arg_value(args, "--start-year"), arg_value(args, "--from-year")));
    let parsed_end = year_arg(either(arg_value(args, "--end-year"), arg_value(args, "--to-year")));
    let has_range = parsed_start.is_some() || parsed_end.is_some();
    let fallback: i64 = match single_year { Some(y) => y, None => 2025 };
    let mut start_year: i64 = if has_range { match parsed_start { Some(y) => y, None => fallback } } else { fallback };
    let mut end_year: i64 = if has_range { match parsed_end { Some(y) => y, None => fallback } } else { fallback };
    if start_year > end_year {
        let t = start_year;
        start_year = end_year;
        end_year = t;
    }
    let period_year: i64 = if start_year == end_year { start_year } else { 0 };
    let raw_limit: i64 = match parse_opt(&arg_value(args, "--limit")) { Some(x) => x, None => 100 };
    let limit: i64 = if raw_limit < 0 { 0 } else if raw_limit > 1_000_000 { 1_000_000 } else { raw_limit };
    let event_result_policy = match choice(arg_value(args, "--event-result-policy"), "first", "best") {
        Some(t) => t,
        None => String::from_str("first"),
    };
    let result_storage = match choice(either(arg_value(args, "--result-storage"), arg_value(args, "--storage")), "summary-only", "full") {
        Some(t) => t,
        None => if has_flag(args, "--store-result-rows") { String::from_str("full") } else { String::from_str("summary-only") },
    };
    let risk_basis = normalize_risk_basis(arg_value(args, "--risk-basis"));
    let raw_hold: i64 = match parse_opt(&either(arg_value(args, "--max-hold-multiple"), arg_value(args, "--hold-multiple"))) {
        Some(x) => x,
        None => 5,
    };
    let max_hold_multiple: i64 = if raw_hold < 1 { 1 } else if raw_hold > 50 { 50 } else { raw_hold };
    let entry_kind = normalize_entry_kind(either(either(arg_value(args, "--entry-kind"), arg_value(args, "--entry")), arg_value(args, "--entry-type")));
    let entry_offset = match parse_opt(&either(arg_value(args, "--entry-offset"), arg_value(args, "--offset"))) {
        Some(x) => if x > 0 { Some(x) } else { None },
        None => None,
    };
    let direction_mode = normalize_direction_mode(either(either(arg_value(args, "--direction-mode"), arg_value(args, "--direction")), arg_value(args, "--trade-direction-mode")));
    let skip_condition_stats = has_flag(args, "--skip-condition-stats");
    let family_key = clean_opt(either(arg_value(args, "--family"), arg_value(args, "--family-key")));
    let symbol = clean_opt(arg_value(args, "--symbol"));
    let template_source_run_id = clean_opt(either(arg_value(args, "--template-source-run-id"), arg_value(args, "--existing-template-run-id")));
    let output_run_id = clean_opt(either(arg_value(args, "--output-run-id"), arg_value(args, "--append-to-run-id")));
    TemplateRunOptions {
        source_scope,
        source_timeframe,
        period_year,
        start_year,
        end_year,
        limit,
        event_result_policy,
        result_storage,
        risk_basis,
        max_hold_multiple,
        entry_kind,
        entry_offset,
        direction_mode,
        skip_condition_stats,
        family_key,
        symbol,
        template_source_run_id,
        output_run_id,
    }
}

impl TemplateRunOptions {
    /// The period as text: one year, or `start-end`.
    pub fn year_label(&self) -> (r: String)
        ensures
            r@ == (if self.start_year == self.end_year { int_text(self.start_year as int) }
                else { int_text(self.start_year as int) + "-"@ + int_text(self.end_year as int) }),
    {
        let mut v = int_chars(self.start_year);
        if self.start_year != self.end_year {
            crate::text::push_lit(&mut v, "-");
            let e = int_chars(self.end_year);
            crate::text::push_all(&mut v, &e);
        }
        string_of(&v)
    }

    /// How many events to scan: the limit when positive, otherwise all.
    pub fn event_limit(&self) -> (r: Option<usize>)
        ensures r == (if self.limit > 0 { Some(self.limit as usize) } else { None::<usize> }),
    {
        if self.limit > 0 { Some(self.limit as usize) } else { None }
    }

    /// Whether raw result rows are stored.
    pub fn stores_raw_results(&self) -> (r: bool)
        ensures r == (self.result_storage@ == "full"@),
    {
        eq_lit(&chars_of(self.result_storage.as_str()), "full")
    }
}

/// An optional integer option: absent is `None`, present must be an integer.
pub open spec fn int_result(v: Option<Seq<char>>) -> Result<Option<int>, IntTextError> {
    match v {
        None => Ok(None),
        Some(t) => match parse_i64_spec(t) {
            Ok(x) => Ok(Some(x)),
            Err(e) => Err(e),
        },
    }
}

fn parse_opt_result(v: &Option<String>) -> (r: Result<Option<i64>, IntTextError>)
    ensures
        match int_result(view_opt(*v)) {
            Ok(Some(x)) => r == Ok::<Option<i64>, IntTextError>(Some(x as i64)),
            Ok(None) => r == Ok::<Option<i64>, IntTextError>(None),
            Err(e) => r == Err::<Option<i64>, IntTextError>(e),
        },
{
    match v {
        None => Ok(None),
        Some(t) => match parse_i64(t.as_str()) {
            Ok(x) => Ok(Some(x)),
            Err(e) => Err(e),
        },
    }
}

/// The options of the event assigner that are not price ratios.
#[derive(Clone, Debug)]
pub struct AssignOptions {
    pub symbol: Option<String>,
    pub all_symbols: bool,
    pub source_table: Option<String>,
    pub timeframe: Option<String>,
    pub year: Option<i64>,
    pub list_top: Option<i64>,
    pub limit: Option<i64>,
    pub d_window_minutes: i64,
    pub wide_d_window_minutes: i64,
    pub anchor_window_minutes: i64,
    pub apply: bool,
}

/// A window option: its integer, or the default, at least one.
pub open spec fn window_of(v: Option<int>, default: int) -> int {
    let x = match v { Some(x) => x, None => default };
    if x < 1 { 1 } else { x }
}

/// The integer options of the event assigner in the order they are read.
pub open spec fn assign_ints(args: Seq<String>) -> Seq<Result<Option<int>, IntTextError>> {
    seq![
        int_result(arg_text(args, "--year"@)),
        int_result(arg_text(args, "--list-top"@)),
        int_result(arg_text(args, "--limit"@)),
        int_result(arg_text(args, "--d-window-minutes"@)),
        int_result(arg_text(args, "--wide-d-window-minutes"@)),
        int_result(arg_text(args, "--anchor-window-minutes"@)),
    ]
}

/// The symbol option in upper case, when given and not blank.
pub open spec fn symbol_option(v: Option<Seq<char>>) -> Option<Seq<char>> {
    match v {
        Some(t) if clean_symbol_text(t).len() > 0 => Some(clean_symbol_text(t)),
        _ => None,
    }
}

pub open spec fn assign_options_ok(args: Seq<String>, r: Result<AssignOptions, IntTextError>) -> bool {
    let ints = assign_ints(args);
    match r {
        Err(e) => exists|k: int| 0 <= k < 6 && #[trigger] ints[k] == Err::<Option<int>, IntTextError>(e)
            && forall|j: int| 0 <= j < k ==> (#[trigger] ints[j]) is Ok,
        Ok(o) => {
            &&& forall|j: int| 0 <= j < 6 ==> (#[trigger] ints[j]) is Ok
            &&& view_opt(o.symbol) == symbol_option(or_else(arg_text(args, "--symbol"@), arg_text(args, "--contract"@)))
            &&& o.all_symbols == flag_given(args, "--all-symbols"@)
            &&& view_opt(o.source_table) == clean_optional(arg_text(args, "--source-table"@))
            &&& view_opt(o.timeframe) == clean_optional(arg_text(args, "--timeframe"@))
            &&& o.year == (match ints[0]->Ok_0 { Some(x) => Some(x as i64), None => None::<i64> })
            &&& o.list_top == (match ints[1]->Ok_0 { Some(x) => Some(x as i64), None => None::<i64> })
            &&& o.limit == (match ints[2]->Ok_0 { Some(x) => Some(x as i64), None => None::<i64> })
            &&& o.d_window_minutes == window_of(ints[3]->Ok_0, 15)
            &&& o.wide_d_window_minutes == window_of(ints[4]->Ok_0, 60)
            &&& o.anchor_window_minutes == window_of(ints[5]->Ok_0, 240)
            &&& o.apply == flag_given(args, "--apply"@)
        }
    }
}

fn window(v: Option<i64>, default: i64) -> (r: i64)
    requires default >= 1,
    ensures r == window_of(match v { Some(x) => Some(x as int), None => None::<int> }, default as int),
{
    let x = match v { Some(x) => x, None => default };
    if x < 1 { 1 } else { x }
}

/// Reads the event assigner's options (all but its price tolerance). The
/// first integer option that is given but is no integer is refused.
pub fn parse_assign_options(args: &Vec<String>) -> (r: Result<AssignOptions, IntTextError>)
    ensures assign_options_ok(args@, r),
{
    let ghost ints = assign_ints(args@);
    let symbol = match either(arg_value(args, "--symbol"), arg_value(args, "--contract")) {
        None => None,
        Some(v) => {
            let u = clean_symbol(v.as_str());
            if u.unicode_len() > 0 { Some(u) } else { None }
        }
    };
    let all_symbols = has_flag(args, "--all-symbols");
    let source_table = clean_opt(arg_value(args, "--source-table"));
    let timeframe = clean_opt(arg_value(args, "--timeframe"));
    let year = match parse_opt_result(&arg_value(args, "--year")) {
        Ok(x) => x,
        Err(e) => { proof { assert(ints[0] is Err); } return Err(e); }
    };
    let list_top = match parse_opt_result(&arg_value(args, "--list-top")) {
        Ok(x) => x,
        Err(e) => { proof { assert(ints[1] is Err); assert(ints[0] is Ok); } return Err(e); }
    };
    let limit = match parse_opt_result(&arg_value(args, "--limit")) {
        Ok(x) => x,
        Err(e) => { proof { assert(ints[2] is Err); assert(ints[1] is Ok); } return Err(e); }
    };
    let d = match parse_opt_result(&arg_value(args, "--d-window-minutes")) {
        Ok(x) => x,
        Err(e) => { proof { assert(ints[3] is Err); assert(ints[2] is Ok); } return Err(e); }
    };
    let wide = match parse_opt_result(&arg_value(args, "--wide-d-window-minutes")) {
        Ok(x) => x,
        Err(e) => { proof { assert(ints[4] is Err); assert(ints[3] is Ok); } return Err(e); }
    };
    let anchor = match parse_opt_result(&arg_value(args, "--anchor-window-minutes")) {
        Ok(x) => x,
        Err(e) => { proof { assert(ints[5] is Err); assert(ints[4] is Ok); } return Err(e); }
    };
    let apply = has_flag(args, "--apply");
    Ok(AssignOptions {
        symbol,
        all_symbols,
        source_table,
        timeframe,
        year,
        list_top,
        limit,
        d_window_minutes: window(d, 15),
        wide_d_window_minutes: window(wide, 60),
        anchor_window_minutes: window(anchor, 240),
        apply,
    })
}

/// The options of the XA outcome labeller that are not price multiples.
pub struct OutcomeOptions {
    pub source_scope: String,
    pub source_timeframe: Option<String>,
    pub start_year: i32,
    pub end_year: i32,
    pub limit: i64,
    pub max_forward_multiple: i64,
    pub direction_mode: String,
}

/// An option read as an `i32`, where it is one.
pub open spec fn i32_of(v: Option<Seq<char>>) -> Option<int> {
    match int_of(v) {
        Some(x) if i32::MIN <= x <= i32::MAX => Some(x),
        _ => None,
    }
}

pub open spec fn outcome_options_ok(args: Seq<String>, o: OutcomeOptions) -> bool {
    let single = match i32_of(arg_clean(args, "--year"@)) { Some(y) => y, None => 2026 };
    let start = match i32_of(arg_clean(args, "--start-year"@)) { Some(y) => y, None => single };
    let end = match i32_of(arg_clean(args, "--end-year"@)) { Some(y) => y, None => start };
    &&& o.source_scope@ == source_of(arg_clean(args, "--source"@))
    &&& view_opt(o.source_timeframe) == outcome_timeframe_of(arg_clean(args, "--timeframe"@))
    &&& o.start_year == (if start <= end { start } else { end })
    &&& o.end_year == (if start <= end { end } else { start })
    &&& o.limit == (match int_of(arg_clean(args, "--limit"@)) { Some(x) => if x < 0 { 0 } else { x }, None => 0 })
    &&& o.max_forward_multiple == clamp(match int_of(or_else(arg_clean(args, "--max-forward-multiple"@), arg_clean(args, "--max-hold-multiple"@))) { Some(x) => x, None => 5 }, 0, 100)
    &&& o.direction_mode@ == (match choice_of(arg_clean(args, "--direction-mode"@), "with_pattern"@, "inverse_pattern"@) { Some(t) => t, None => "inverse_pattern"@ })
}

fn i32_arg(v: &Option<String>) -> (r: Option<i32>)
    ensures
        match i32_of(view_opt(*v)) {
            Some(y) => r == Some(y as i32),
            None => r is None,
        },
{
    match parse_opt(v) {
        Some(x) => if -2147483648 <= x && x <= 2147483647 { Some(x as i32) } else { None },
        None => None,
    }
}

/// Reads the XA outcome labeller's options (all but its XA multiple).
pub fn parse_outcome_options(args: &Vec<String>) -> (o: OutcomeOptions)
    ensures outcome_options_ok(args@, o),
{
    let single: i32 = match i32_arg(&arg_value_trimmed(args, "--year")) { Some(y) => y, None => 2026 };
    let start: i32 = match i32_arg(&arg_value_trimmed(args, "--start-year")) { Some(y) => y, None => single };
    let end: i32 = match i32_arg(&arg_value_trimmed(args, "--end-year")) { Some(y) => y, None => start };
    let limit: i64 = match parse_opt(&arg_value_trimmed(args, "--limit")) { Some(x) => if x < 0 { 0 } else { x }, None => 0 };
    let raw_forward: i64 = match parse_opt(&either(arg_value_trimmed(args, "--max-forward-multiple"), arg_value_trimmed(args, "--max-hold-multiple"))) {
        Some(x) => x,
        None => 5,
    };
    let max_forward_multiple: i64 = if raw_forward < 0 { 0 } else if raw_forward > 100 { 100 } else { raw_forward };
    let direction_mode = match choice(arg_value_trimmed(args, "--direction-mode"), "with_pattern", "inverse_pattern") {
        Some(t) => t,
        None => String::from_str("inverse_pattern"),
    };
    OutcomeOptions {
        source_scope: normalize_source(arg_value_trimmed(args, "--source")),
        source_timeframe: normalize_outcome_timeframe(arg_value_trimmed(args, "--timeframe")),
        start_year: if start <= end { start } else { end },
        end_year: if start <= end { end } else { start },
        limit,
        max_forward_multiple,
        direction_mode,
    }
}

/// The period of an outcome run as text: one year, or `start-end`.
pub fn outcome_year_label(start_year: i32, end_year: i32) -> (r: String)
    ensures
        r@ == (if start_year == end_year { int_text(start_year as int) }
            else { int_text(start_year as int) + "-"@ + int_text(end_year as int) }),
{
    let mut v = int_chars(start_year as i64);
    if start_year != end_year {
        crate::text::push_lit(&mut v, "-");
        let e = int_chars(end_year as i64);
        crate::text::push_all(&mut v, &e);
    }
    string_of(&v)
}

/// An integer option read from its value, or from a default text where absent.
pub open spec fn int_or_default_spec(value: Option<Seq<char>>, default: Seq<char>) -> Result<int, IntTextError> {
    parse_i64_spec(match value { Some(v) => v, None => default })
}

/// Parses an option's value, or the default text where it is absent.
pub fn parse_int_or_default(value: Option<String>, default: &str) -> (r: Result<i64, IntTextError>)
    ensures
        match int_or_default_spec(view_opt(value), default@) {
            Ok(x) => r == Ok::<i64, IntTextError>(x as i64),
            Err(e) => r == Err::<i64, IntTextError>(e),
        },
{
    match value {
        Some(v) => parse_i64(v.as_str()),
        None => parse_i64(default),
    }
}

pub open spec fn flag_text(value: Option<Seq<char>>) -> bool {
    match value {
        Some(v) => trim(v) == "1"@ || trim(v) == "true"@ || trim(v) == "TRUE"@ || trim(v) == "yes"@ || trim(v) == "YES"@,
        None => false,
    }
}

/// Whether a setting's value switches it on: `1`, `true`, `TRUE`, `yes` or `YES`.
pub fn flag_value(value: Option<String>) -> (r: bool)
    ensures r == flag_text(view_opt(value)),
{
    match value {
        None => false,
        Some(v) => {
            let t = trim_chars(&chars_of(v.as_str()));
            eq_lit(&t, "1") || eq_lit(&t, "true") || eq_lit(&t, "TRUE") || eq_lit(&t, "yes") || eq_lit(&t, "YES")
        }
    }
}

pub open spec fn int_setting_spec(value: Option<Seq<char>>, default: int) -> Result<int, IntTextError> {
    match value {
        Some(v) if trim(v).len() > 0 => parse_i64_spec(trim(v)),
        _ => Ok(default),
    }
}

/// An integer setting: its trimmed value when not blank, else the default.
pub fn int_setting(value: Option<String>, default: i64) -> (r: Result<i64, IntTextError>)
    ensures
        match int_setting_spec(view_opt(value), default as int) {
            Ok(x) => r == Ok::<i64, IntTextError>(x as i64),
            Err(e) => r == Err::<i64, IntTextError>(e),
        },
{
    match value {
        Some(v) => {
            let t = trim_chars(&chars_of(v.as_str()));
            if t.len() > 0 {
                crate::numeric::parse_i64_chars(&t)
            } else {
                Ok(default)
            }
        }
        None => Ok(default),
    }
}

pub open spec fn symbol_limit_spec(value: Option<Seq<char>>) -> Result<int, IntTextError> {
    match value {
        Some(v) => parse_i64_spec(trim(v)),
        None => Ok(i64::MAX as int),
    }
}

/// The market-trend symbol limit: the trimmed value read as an integer, or
/// no limit (`i64::MAX`) where it is absent.
pub fn symbol_limit_setting(value: Option<String>) -> (r: Result<i64, IntTextError>)
    ensures
        match symbol_limit_spec(view_opt(value)) {
            Ok(x) => r == Ok::<i64, IntTextError>(x as i64),
            Err(e) => r == Err::<i64, IntTextError>(e),
        },
{
    match value {
        Some(v) => {
            let t = trim_chars(&chars_of(v.as_str()));
            crate::numeric::parse_i64_chars(&t)
        }
        None => Ok(i64::MAX),
    }
}

} // verus!
