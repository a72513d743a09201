//! Candle windows around a pattern setup: where its forward candles start,
//! how many of them are read, how long a trade may be held, and which
//! candles a templated entry reads.
use vstd::prelude::*;
use crate::order::{ts_before, ts_le, ts_lt, Timestamp};

verus! {

/// The first position at or after `k` whose time is not before `d`, or the
/// length where there is none.
pub open spec fn first_not_before(dates: Seq<Timestamp>, d: Timestamp, k: int) -> int
    decreases dates.len() - k,
{
    if k < 0 || k >= dates.len() {
        dates.len() as int
    } else if !ts_lt(dates[k], d) {
        k
    } else {
        first_not_before(dates, d, k + 1)
    }
}

/// Where a setup's forward candles start: the first candle not before its D
/// confirmation, skipped when it is exactly at the confirmation.
pub open spec fn forward_start(dates: Seq<Timestamp>, d: Timestamp) -> int {
    let p = first_not_before(dates, d, 0);
    if p < dates.len() && ts_le(dates[p], d) { p + 1 } else { p }
}

/// The position of the first candle after a setup's D confirmation.
pub fn forward_start_index(candle_dates: &Vec<Timestamp>, d_confirm: Timestamp) -> (r: usize)
    ensures r == forward_start(candle_dates@, d_confirm),
{
    let n = candle_dates.len();
    let mut i: usize = 0;
    while i < n && ts_before(&candle_dates[i], &d_confirm)
        invariant
            i <= n == candle_dates@.len(),
            first_not_before(candle_dates@, d_confirm, 0) == first_not_before(candle_dates@, d_confirm, i as int),
        decreases n - i,
    {
        i = i + 1;
    }
    if i < n && !ts_before(&d_confirm, &candle_dates[i]) {
        i + 1
    } else {
        i
    }
}

/// `a.saturating_mul(b)` for `i64` values.
pub open spec fn mul_saturating(a: int, b: int) -> int {
    if a * b > i64::MAX { i64::MAX as int } else if a * b < i64::MIN { i64::MIN as int } else { a * b }
}

fn saturating_mul_i64(a: i64, b: i64) -> (r: i64)
    ensures r == mul_saturating(a as int, b as int),
{
    let x = a as i128;
    let y = b as i128;
    assert(-0x4000_0000_0000_0000_0000_0000_0000_0000 <= x * y <= 0x4000_0000_0000_0000_0000_0000_0000_0000) by (nonlinear_arith)
        requires
            -0x8000_0000_0000_0000 <= x <= 0x7fff_ffff_ffff_ffff,
            -0x8000_0000_0000_0000 <= y <= 0x7fff_ffff_ffff_ffff,
    ;
    let p: i128 = x * y;
    if p > i64::MAX as i128 {
        i64::MAX
    } else if p < i64::MIN as i128 {
        i64::MIN
    } else {
        p as i64
    }
}

/// The most bars a templated trade is held: the pattern length times the
/// hold multiple (at least one), at least one bar.
pub open spec fn hold_bars(full_pattern_length: int, max_hold_multiple: int) -> int {
    let m = if max_hold_multiple >= 1 { max_hold_multiple } else { 1 };
    let p = mul_saturating(full_pattern_length, m);
    if p >= 1 { p } else { 1 }
}

/// The hold limit of a templated trade in bars.
pub fn max_hold_bars(full_pattern_length: i64, max_hold_multiple: i64) -> (r: usize)
    ensures r == hold_bars(full_pattern_length as int, max_hold_multiple as int) as usize,
{
    let m: i64 = if max_hold_multiple >= 1 { max_hold_multiple } else { 1 };
    let p = saturating_mul_i64(full_pattern_length, m);
    let bars: i64 = if p >= 1 { p } else { 1 };
    bars as usize
}

/// The latest confirmation offset a template may enter at: no further than
/// the candles left, the hold limit, or 24 bars.
pub fn max_entry_offset(candle_count: usize, start_index: usize, max_hold_bars: usize) -> (r: usize)
    ensures
        r == ({
            let left = if candle_count >= start_index { candle_count - start_index } else { 0 };
            let a = if left <= max_hold_bars { left } else { max_hold_bars as int };
            if a <= 24 { a } else { 24 }
        }),
{
    let left = candle_count.saturating_sub(start_index);
    let a = if left <= max_hold_bars { left } else { max_hold_bars };
    if a <= 24 { a } else { 24 }
}

/// The candles an entry at `entry_offset` after confirmation reads, as the
/// entry position and the end of the hold window: none where the offset is
/// zero or past the latest allowed, the entry candle is missing, or the
/// window is empty.
pub open spec fn entry_window_spec(
    candle_count: int,
    start_index: int,
    entry_offset: int,
    max_entry_offset: int,
    max_hold_bars: int,
) -> Option<(int, int)> {
    if entry_offset == 0 || entry_offset > max_entry_offset {
        None
    } else {
        let entry = start_index + entry_offset - 1;
        let reach = if entry + max_hold_bars > usize::MAX { usize::MAX as int } else { entry + max_hold_bars };
        let end = if candle_count <= reach { candle_count } else { reach };
        if entry >= candle_count || end <= entry { None } else { Some((entry, end)) }
    }
}

/// The entry position and hold-window end of a templated entry.
pub fn entry_window(
    candle_count: usize,
    start_index: usize,
    entry_offset: usize,
    max_entry_offset: usize,
    max_hold_bars: usize,
) -> (r: Option<(usize, usize)>)
    requires max_entry_offset as int + start_index as int <= candle_count as int,
    ensures
        match entry_window_spec(candle_count as int, start_index as int, entry_offset as int,
            max_entry_offset as int, max_hold_bars as int) {
            Some((e, x)) => r == Some((e as usize, x as usize)),
            None => r is None,
        },
{
    if entry_offset == 0 || entry_offset > max_entry_offset {
        return None;
    }
    let entry = start_index + entry_offset - 1;
    let reach = entry.saturating_add(max_hold_bars);
    let end = if candle_count <= reach { candle_count } else { reach };
    if entry >= candle_count || end <= entry {
        None
    } else {
        Some((entry, end))
    }
}

/// The confirmation offset of an entry found at `entry_index`, counting the
/// first forward candle as one.
pub fn entry_offset_at(entry_index: usize, start_index: usize) -> (r: usize)
    ensures
        r == ({
            let d = if entry_index >= start_index { entry_index - start_index } else { 0 };
            if d + 1 > usize::MAX { usize::MAX as int } else { d + 1 }
        }),
{
    entry_index.saturating_sub(start_index).saturating_add(1)
}

/// How many forward bars an XA outcome reads: the pattern length times the
/// forward multiple, at least one, or no limit where the multiple is not
/// positive.
pub open spec fn forward_bars_spec(full_pattern_length: int, max_forward_multiple: int) -> Option<int> {
    if max_forward_multiple > 0 {
        let p = mul_saturating(full_pattern_length, max_forward_multiple);
        Some(if p >= 1 { p } else { 1 })
    } else {
        None
    }
}

/// The forward bar limit of an XA outcome.
pub fn max_forward_bars(full_pattern_length: i64, max_forward_multiple: i64) -> (r: Option<i64>)
    ensures
        match forward_bars_spec(full_pattern_length as int, max_forward_multiple as int) {
            Some(b) => r == Some(b as i64),
            None => r is None,
        },
{
    if max_forward_multiple > 0 {
        let p = saturating_mul_i64(full_pattern_length, max_forward_multiple);
        Some(if p >= 1 { p } else { 1 })
    } else {
        None
    }
}

/// The number of candle rows fetched for a forward bar limit: one more
/// than the limit, saturating.
pub fn forward_row_limit(max_forward_bars: i64) -> (r: i64)
    ensures r == (if max_forward_bars as int + 1 > i64::MAX { i64::MAX as int } else { max_forward_bars as int + 1 }),
{
    if max_forward_bars == i64::MAX { i64::MAX } else { max_forward_bars + 1 }
}

/// Whether a setup's forward candles come from the daily `candles` table:
/// its source table is `candles` or its timeframe is `daily`.
pub fn uses_daily_candles(source_table: Option<&str>, source_timeframe: Option<&str>) -> (r: bool)
    ensures
        r == ((source_table matches Some(t) && t@ == "candles"@)
            || (source_timeframe matches Some(f) && f@ == "daily"@)),
{
    let table = match source_table {
        Some(t) => crate::text::str_eq(t, "candles"),
        None => false,
    };
    let daily = match source_timeframe {
        Some(f) => crate::text::str_eq(f, "daily"),
        None => false,
    };
    table || daily
}

/// The bar count at which an outcome was hit, counting the entry bar as one.
pub fn bars_to_hit(relative_index: usize, entry_index: usize) -> (r: i64)
    ensures
        r == (({
            let d = if relative_index >= entry_index { relative_index - entry_index } else { 0 };
            if d + 1 > usize::MAX { usize::MAX as int } else { d + 1 }
        }) as i64),
{
    let n = relative_index.saturating_sub(entry_index).saturating_add(1);
    n as i64
}

} // verus!
