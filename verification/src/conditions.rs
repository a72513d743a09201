//! The condition values by which template results are bucketed: cleaned text,
//! trend labels, pattern-length buckets and calendar labels of a confirmation.
use vstd::prelude::*;
use vstd::string::StringExecFns;
use crate::text::{chars_of, eq_lit, push_all, push_lit, string_of, trim, trim_chars};
use crate::numeric::{int_chars, int_text};
use crate::options::view_opt;

verus! {

/// A string trimmed, or `None` where it is absent or blank.
pub open spec fn clean_optional(value: Option<Seq<char>>) -> Option<Seq<char>> {
    match value {
        Some(v) if trim(v).len() > 0 => Some(trim(v)),
        _ => None,
    }
}

/// Trims an optional text and drops it when nothing is left.
pub fn clean_optional_text(value: Option<&str>) -> (r: Option<String>)
    ensures view_opt(r) == clean_optional(match value { Some(s) => Some(s@), None => None }),
{
    match value {
        None => None,
        Some(v) => {
            let t = trim_chars(&chars_of(v));
            if t.len() == 0 {
                None
            } else {
                Some(string_of(&t))
            }
        }
    }
}

/// The trimmed value, or `Unknown` where it is absent or blank.
pub open spec fn condition_text(value: Option<Seq<char>>) -> Seq<char> {
    match clean_optional(value) {
        Some(v) => v,
        None => "Unknown"@,
    }
}

/// A condition value as it is stored: trimmed, `Unknown` when blank or absent.
pub fn clean_condition_value(value: Option<String>) -> (r: String)
    ensures r@ == condition_text(view_opt(value)),
{
    match value {
        None => String::from_str("Unknown"),
        Some(v) => {
            let t = trim_chars(&chars_of(v.as_str()));
            if t.len() == 0 {
                String::from_str("Unknown")
            } else {
                string_of(&t)
            }
        }
    }
}

pub open spec fn first_condition_text(primary: Option<Seq<char>>, fallback: Option<Seq<char>>) -> Seq<char> {
    if condition_text(primary) == "Unknown"@ { condition_text(fallback) } else { condition_text(primary) }
}

/// The cleaned primary value, falling back to the cleaned fallback where the
/// primary cleans to `Unknown`.
pub fn first_clean_condition_value(primary: Option<String>, fallback: Option<String>) -> (r: String)
    ensures r@ == first_condition_text(view_opt(primary), view_opt(fallback)),
{
    let p = clean_condition_value(primary);
    let pc = chars_of(p.as_str());
    if eq_lit(&pc, "Unknown") {
        clean_condition_value(fallback)
    } else {
        p
    }
}

pub open spec fn trend_text(value: Option<i64>) -> Seq<char> {
    match value {
        Some(v) if v != 0 => "Bullish"@,
        Some(_) => "Bearish"@,
        None => "Unknown"@,
    }
}

/// The trend label of a stored flag: non-zero is `Bullish`, zero `Bearish`.
pub fn trend_condition_value(value: Option<i64>) -> (r: String)
    ensures r@ == trend_text(value),
{
    match value {
        Some(v) => if v != 0 { String::from_str("Bullish") } else { String::from_str("Bearish") },
        None => String::from_str("Unknown"),
    }
}

pub open spec fn length_bucket_text(value: Option<i64>) -> Seq<char> {
    match value {
        Some(v) if v <= 20 => "0-20 bars"@,
        Some(v) if v <= 50 => "21-50 bars"@,
        Some(v) if v <= 100 => "51-100 bars"@,
        Some(v) if v <= 200 => "101-200 bars"@,
        Some(_) => "200+ bars"@,
        None => "Unknown"@,
    }
}

/// The bucket of a pattern's length in bars.
pub fn pattern_length_bucket(value: Option<i64>) -> (r: String)
    ensures r@ == length_bucket_text(value),
{
    match value {
        Some(v) => {
            if v <= 20 {
                String::from_str("0-20 bars")
            } else if v <= 50 {
                String::from_str("21-50 bars")
            } else if v <= 100 {
                String::from_str("51-100 bars")
            } else if v <= 200 {
                String::from_str("101-200 bars")
            } else {
                String::from_str("200+ bars")
            }
        }
        None => String::from_str("Unknown"),
    }
}

/// The calendar fields of a confirmation time that the labels read.
#[derive(Clone, Copy, Debug)]
pub struct CalendarStamp {
    year: i32,
    month: u32,
    hour: u32,
}

impl CalendarStamp {
    #[verifier::type_invariant]
    spec fn valid(self) -> bool {
        1 <= self.month <= 12 && self.hour <= 23
    }

    pub closed spec fn year_of(self) -> int {
        self.year as int
    }

    pub closed spec fn month_of(self) -> int {
        self.month as int
    }

    pub closed spec fn hour_of(self) -> int {
        self.hour as int
    }

    /// A stamp of the given year, month (1 to 12) and hour (0 to 23).
    pub fn from_parts(year: i32, month: u32, hour: u32) -> (r: Option<CalendarStamp>)
        ensures
            (1 <= month <= 12 && hour <= 23) <==> r is Some,
            r matches Some(c) ==> c.year_of() == year && c.month_of() == month && c.hour_of() == hour,
    {
        if 1 <= month && month <= 12 && hour <= 23 {
            Some(CalendarStamp { year, month, hour })
        } else {
            None
        }
    }

    pub fn year(&self) -> (r: i32)
        ensures r as int == self.year_of(),
    {
        self.year
    }

    pub fn month(&self) -> (r: u32)
        ensures r as int == self.month_of(), 1 <= r <= 12,
    {
        proof { use_type_invariant(self); }
        self.month
    }

    pub fn hour(&self) -> (r: u32)
        ensures r as int == self.hour_of(), r <= 23,
    {
        proof { use_type_invariant(self); }
        self.hour
    }
}

pub open spec fn year_text(value: Option<CalendarStamp>) -> Seq<char> {
    match value {
        Some(c) => int_text(c.year_of()),
        None => "Unknown"@,
    }
}

/// The year of a confirmation, or `Unknown`.
pub fn confirm_year_value(value: Option<CalendarStamp>) -> (r: String)
    ensures r@ == year_text(value),
{
    match value {
        Some(c) => string_of(&int_chars(c.year() as i64)),
        None => String::from_str("Unknown"),
    }
}

pub open spec fn quarter_of_month(m: int) -> int {
    (m - 1) / 3 + 1
}

pub open spec fn quarter_text(value: Option<CalendarStamp>) -> Seq<char> {
    match value {
        Some(c) => int_text(c.year_of()) + "-Q"@ + int_text(quarter_of_month(c.month_of())),
        None => "Unknown"@,
    }
}

/// The year and quarter of a confirmation, such as `2025-Q3`, or `Unknown`.
pub fn confirm_quarter_value(value: Option<CalendarStamp>) -> (r: String)
    ensures r@ == quarter_text(value),
{
    match value {
        Some(c) => {
            let month = c.month();
            let quarter: u32 = (month - 1) / 3 + 1;
            let mut v = int_chars(c.year() as i64);
            push_lit(&mut v, "-Q");
            let q = int_chars(quarter as i64);
            push_all(&mut v, &q);
            string_of(&v)
        }
        None => String::from_str("Unknown"),
    }
}

pub open spec fn session_of_hour(h: int) -> Seq<char> {
    if h <= 5 {
        "Overnight"@
    } else if h <= 8 {
        "Pre-Market"@
    } else if h <= 15 {
        "Regular"@
    } else if h <= 20 {
        "After-Hours"@
    } else {
        "Late"@
    }
}

pub open spec fn session_text(value: Option<CalendarStamp>) -> Seq<char> {
    match value {
        Some(c) => session_of_hour(c.hour_of()),
        None => "Unknown"@,
    }
}

/// The trading session of a confirmation hour, or `Unknown`.
pub fn confirm_session_value(value: Option<CalendarStamp>) -> (r: String)
    ensures r@ == session_text(value),
{
    match value {
        None => String::from_str("Unknown"),
        Some(c) => {
            let h = c.hour();
            if h <= 5 {
                String::from_str("Overnight")
            } else if h <= 8 {
                String::from_str("Pre-Market")
            } else if h <= 15 {
                String::from_str("Regular")
            } else if h <= 20 {
                String::from_str("After-Hours")
            } else {
                String::from_str("Late")
            }
        }
    }
}

} // verus!
