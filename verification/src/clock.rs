//! Nanosecond timestamps shown as calendar text.
use vstd::prelude::*;
use crate::text::string_of;
use crate::numeric::{int_chars, int_text};
use crate::options::view_opt;
use crate::order::Timestamp;
use crate::text::{trim, trim_str};

verus! {

/// What `chrono` writes for the UTC date and time of a Unix timestamp given
/// in seconds and nanoseconds, or `None` where chrono has no such time.
pub uninterp spec fn utc_datetime_text(secs: i64, nanos: u32) -> Option<Seq<char>>;

/// `chrono::DateTime::from_timestamp`, shown as its naive UTC date and time.
/// The contract names the text `utc_datetime_text` and does not state the
/// calendar.
#[verifier::external_body]
fn datetime_text(secs: i64, nanos: u32) -> (r: Option<String>)
    ensures view_opt(r) == utc_datetime_text(secs, nanos),
{
    match chrono::DateTime::from_timestamp(secs, nanos) {
        Some(dt) => Some(dt.naive_utc().to_string()),
        None => None,
    }
}

/// The calendar text of a nanosecond timestamp (seconds and nanoseconds by
/// Euclidean division), its number where chrono has no such time, and
/// nothing where there is no timestamp.
pub open spec fn ns_text(ns: Option<i64>) -> Seq<char> {
    match ns {
        None => Seq::empty(),
        Some(n) => shown_time(utc_datetime_text((n as int / 1_000_000_000) as i64, (n as int % 1_000_000_000) as u32), n),
    }
}

/// A calendar text where there is one, else the nanosecond count itself.
pub open spec fn shown_time(calendar: Option<Seq<char>>, ns: i64) -> Seq<char> {
    match calendar {
        Some(t) => t,
        None => int_text(ns as int),
    }
}

/// Shows a timestamp by its calendar text, or by its nanosecond count where
/// it has none.
pub fn calendar_or_count(calendar: Option<String>, ns: i64) -> (r: String)
    ensures r@ == shown_time(view_opt(calendar), ns),
{
    match calendar {
        Some(t) => t,
        None => string_of(&int_chars(ns)),
    }
}

/// Splits nanoseconds into whole seconds and the nanoseconds left over.
pub fn split_ns(ns: i64) -> (r: (i64, u32))
    ensures
        r.0 as int == ns as int / 1_000_000_000,
        r.1 as int == ns as int % 1_000_000_000,
{
    let d: i64 = 1_000_000_000;
    if ns >= 0 {
        let q = ns / d;
        let m = ns % d;
        proof {
            assert(q * d + m == ns && 0 <= m < d) by (nonlinear_arith)
                requires q == ns / d, m == ns % d, ns >= 0, d > 0;
            assert(q as int == ns as int / d as int && m as int == ns as int % d as int) by (nonlinear_arith)
                requires q * d + m == ns, 0 <= m < d, d > 0;
        }
        (q, m as u32)
    } else {
        let m: i64 = -(ns + 1);
        let q0 = m / d;
        let r0 = m % d;
        let q = -q0 - 1;
        let r = d - 1 - r0;
        proof {
            assert(q0 * d + r0 == m && 0 <= r0 < d) by (nonlinear_arith)
                requires q0 == m / d, r0 == m % d, m >= 0, d > 0;
            assert(q * d + r == ns) by (nonlinear_arith)
                requires q0 * d + r0 == m, m == -(ns + 1), q == -q0 - 1, r == d - 1 - r0;
            assert(q as int == ns as int / d as int && r as int == ns as int % d as int) by (nonlinear_arith)
                requires q * d + r == ns, 0 <= r < d, d > 0;
        }
        (q, r as u32)
    }
}

/// Shows a nanosecond timestamp as date and time.
pub fn format_ns(ns: Option<i64>) -> (r: String)
    ensures r@ == ns_text(ns),
{
    match ns {
        None => String::new(),
        Some(n) => {
            let (secs, nanos) = split_ns(n);
            calendar_or_count(datetime_text(secs, nanos), n)
        }
    }
}

/// The seconds and nanoseconds since the Unix epoch of the date and time
/// that chrono reads from `text` in the layout `format`, taken as UTC, or
/// `None` where chrono does not read the text as such a date and time.
pub uninterp spec fn naive_datetime_at(text: Seq<char>, format: Seq<char>) -> Option<(i64, u32)>;

/// A timestamp as its pair of seconds and nanoseconds.
pub open spec fn timestamp_pair(t: Option<Timestamp>) -> Option<(i64, u32)> {
    match t {
        Some(t) => Some((t.secs, t.nanos)),
        None => None,
    }
}

/// `chrono::NaiveDateTime::parse_from_str`, the time taken as UTC and given
/// by `timestamp` and `timestamp_subsec_nanos`. The contract names the result
/// `naive_datetime_at` and does not state chrono's format language.
#[verifier::external_body]
fn parse_naive_datetime(text: &str, format: &str) -> (r: Option<Timestamp>)
    ensures timestamp_pair(r) == naive_datetime_at(text@, format@),
{
    match chrono::NaiveDateTime::parse_from_str(text, format) {
        Ok(dt) => Some(Timestamp { secs: dt.and_utc().timestamp(), nanos: dt.and_utc().timestamp_subsec_nanos() }),
        Err(_) => None,
    }
}

/// The layout of a date and time setting.
pub open spec fn setting_layout() -> Seq<char> {
    "%Y-%m-%d %H:%M:%S"@
}

/// A date and time setting: nothing where it is absent or blank, else the
/// time read from its trimmed text, and an error where that text is not a
/// date and time in the setting layout.
pub open spec fn setting_time(value: Option<Seq<char>>) -> Result<Option<(i64, u32)>, ()> {
    match value {
        None => Ok(None),
        Some(v) => if trim(v).len() == 0 {
            Ok(None)
        } else {
            match naive_datetime_at(trim(v), setting_layout()) {
                Some(p) => Ok(Some(p)),
                None => Err(()),
            }
        },
    }
}

/// Reads a date and time setting given as `%Y-%m-%d %H:%M:%S`.
pub fn datetime_setting(value: Option<String>) -> (r: Result<Option<Timestamp>, ()>)
    ensures
        r matches Ok(t) ==> setting_time(view_opt(value)) == Ok::<Option<(i64, u32)>, ()>(timestamp_pair(t)),
        r is Err <==> setting_time(view_opt(value)) is Err,
{
    match value {
        None => Ok(None),
        Some(v) => {
            let t = trim_str(v.as_str());
            if t.as_str().is_empty() {
                return Ok(None);
            }
            let layout = "%Y-%m-%d %H:%M:%S";
            proof {
                reveal_strlit("%Y-%m-%d %H:%M:%S");
            }
            match parse_naive_datetime(t.as_str(), layout) {
                Some(ts) => Ok(Some(ts)),
                None => Err(()),
            }
        }
    }
}

} // verus!
