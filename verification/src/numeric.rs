//! Decimal integer text: parsing as `str::parse::<i64>` does, printing as
//! `i64::to_string` does, and thousands grouping.
use vstd::prelude::*;
use crate::text::{chars_of, is_ascii_digit, is_digit_char, push_all, slice_chars, string_of};

verus! {

/// Why a text is not a decimal integer, in the order `str::parse` finds it.
#[derive(Clone, Copy, Debug, PartialEq, Eq)]
pub enum IntTextError {
    Empty,
    InvalidDigit,
    PosOverflow,
    NegOverflow,
}

pub open spec fn digit_value(c: char) -> int {
    (c as int) - ('0' as int)
}

pub open spec fn in_i64(v: int) -> bool {
    i64::MIN <= v <= i64::MAX
}

/// Left-to-right accumulation of the digits `s`, negated when `neg`,
/// stopping at the first character that is no digit or the first step that
/// leaves the range of `i64`.
pub open spec fn scan_digits(s: Seq<char>, neg: bool) -> Result<int, IntTextError>
    decreases s.len(),
{
    if s.len() == 0 {
        Ok(0)
    } else {
        match scan_digits(s.drop_last(), neg) {
            Err(e) => Err(e),
            Ok(v) => {
                if !is_ascii_digit(s.last()) {
                    Err(IntTextError::InvalidDigit)
                } else {
                    let w = if neg { v * 10 - digit_value(s.last()) } else { v * 10 + digit_value(s.last()) };
                    if in_i64(w) {
                        Ok(w)
                    } else if neg {
                        Err(IntTextError::NegOverflow)
                    } else {
                        Err(IntTextError::PosOverflow)
                    }
                }
            }
        }
    }
}

/// What `str::parse::<i64>` returns for the text `s`.
pub open spec fn parse_i64_spec(s: Seq<char>) -> Result<int, IntTextError> {
    if s.len() == 0 {
        Err(IntTextError::Empty)
    } else if s[0] == '-' || s[0] == '+' {
        if s.len() == 1 {
            Err(IntTextError::InvalidDigit)
        } else {
            scan_digits(s.drop_first(), s[0] == '-')
        }
    } else {
        scan_digits(s, false)
    }
}

pub proof fn lemma_scan_in_range(s: Seq<char>, neg: bool)
    ensures
        scan_digits(s, neg) matches Ok(v) ==> in_i64(v) && (neg ==> v <= 0) && (!neg ==> v >= 0),
    decreases s.len(),
{
    if s.len() > 0 {
        lemma_scan_in_range(s.drop_last(), neg);
    }
}

/// Once a prefix of the digits fails, the whole text fails the same way.
pub proof fn lemma_scan_prefix_err(s: Seq<char>, k: int, neg: bool)
    requires
        0 <= k <= s.len(),
        scan_digits(s.take(k), neg) is Err,
    ensures
        scan_digits(s, neg) == scan_digits(s.take(k), neg),
    decreases s.len() - k,
{
    if k == s.len() {
        assert(s.take(k) =~= s);
    } else {
        assert(s.drop_last().take(k) =~= s.take(k));
        lemma_scan_prefix_err(s.drop_last(), k, neg);
        if k == s.len() - 1 {
            assert(s.drop_last() =~= s.take(k));
        }
    }
}

/// Parses a decimal integer exactly as `str::parse::<i64>` does: an optional
/// sign, then one or more ASCII digits, with no white space allowed.
pub fn parse_i64(s: &str) -> (r: Result<i64, IntTextError>)
    ensures
        match parse_i64_spec(s@) {
            Ok(v) => r == Ok::<i64, IntTextError>(v as i64),
            Err(e) => r == Err::<i64, IntTextError>(e),
        },
{
    let v = chars_of(s);
    parse_i64_chars(&v)
}

pub fn parse_i64_chars(v: &Vec<char>) -> (r: Result<i64, IntTextError>)
    ensures
        match parse_i64_spec(v@) {
            Ok(x) => r == Ok::<i64, IntTextError>(x as i64),
            Err(e) => r == Err::<i64, IntTextError>(e),
        },
{
    if v.len() == 0 {
        return Err(IntTextError::Empty);
    }
    let mut start: usize = 0;
    let mut neg = false;
    if v[0] == '-' || v[0] == '+' {
        if v.len() == 1 {
            return Err(IntTextError::InvalidDigit);
        }
        neg = v[0] == '-';
        start = 1;
    }
    let ghost digits = v@.skip(start as int);
    proof {
        if start == 1 {
            assert(digits =~= v@.drop_first());
        } else {
            assert(digits =~= v@);
        }
    }
    let mut acc: i64 = 0;
    let mut i: usize = start;
    while i < v.len()
        invariant
            start <= i <= v.len(),
            digits == v@.skip(start as int),
            parse_i64_spec(v@) == scan_digits(digits, neg),
            scan_digits(digits.take(i - start), neg) == Ok::<int, IntTextError>(acc as int),
        decreases v.len() - i,
    {
        let c = v[i];
        let ghost pre = digits.take(i - start);
        let ghost cur = digits.take(i + 1 - start);
        proof {
            assert(cur.drop_last() =~= pre);
            assert(cur.last() == c);
        }
        if !is_digit_char(c) {
            proof {
                assert(scan_digits(cur, neg) == Err::<int, IntTextError>(IntTextError::InvalidDigit));
                lemma_scan_prefix_err(digits, i + 1 - start, neg);
            }
            return Err(IntTextError::InvalidDigit);
        }
        let d: i64 = (c as u32 - '0' as u32) as i64;
        let wide: i128 = if neg { (acc as i128) * 10 - (d as i128) } else { (acc as i128) * 10 + (d as i128) };
        if wide < i64::MIN as i128 || wide > i64::MAX as i128 {
            proof {
                assert(digit_value(c) == d as int);
                assert(scan_digits(cur, neg) is Err);
                lemma_scan_prefix_err(digits, i + 1 - start, neg);
            }
            if neg {
                return Err(IntTextError::NegOverflow);
            } else {
                return Err(IntTextError::PosOverflow);
            }
        }
        acc = wide as i64;
        i = i + 1;
    }
    proof {
        assert(digits.take(v.len() - start) =~= digits);
    }
    Ok(acc)
}

/// The decimal digits of a natural number, most significant first.
pub open spec fn nat_digits(n: nat) -> Seq<char>
    decreases n,
{
    if n < 10 {
        seq![((n + 48) as u32) as char]
    } else {
        nat_digits(n / 10).push((((n % 10) + 48) as u32) as char)
    }
}

/// `i64::to_string`: a minus sign for negative numbers, then the digits.
pub open spec fn int_text(v: int) -> Seq<char> {
    if v < 0 { seq!['-'] + nat_digits((-v) as nat) } else { nat_digits(v as nat) }
}

/// The decimal digits of `n`, most significant first.
pub fn u64_digits(n: u64) -> (r: Vec<char>)
    ensures r@ == nat_digits(n as nat),
    decreases n,
{
    if n < 10 {
        let c = ((n as u8) + 48) as char;
        let mut r: Vec<char> = Vec::new();
        r.push(c);
        proof { assert(r@ =~= nat_digits(n as nat)); }
        r
    } else {
        let mut r = u64_digits(n / 10);
        let c = (((n % 10) as u8) + 48) as char;
        r.push(c);
        r
    }
}

/// The text of an integer, as `i64::to_string` gives it.
pub fn int_chars(v: i64) -> (r: Vec<char>)
    ensures r@ == int_text(v as int),
{
    if v < 0 {
        let m: u64 = if v == i64::MIN { 9223372036854775808u64 } else { (-v) as u64 };
        let d = u64_digits(m);
        let mut r: Vec<char> = Vec::new();
        r.push('-');
        push_all(&mut r, &d);
        proof { assert(r@ =~= seq!['-'] + nat_digits((-(v as int)) as nat)); }
        r
    } else {
        u64_digits(v as u64)
    }
}

/// `i64::to_string`.
pub fn int_to_string(v: i64) -> (s: String)
    ensures s@ == int_text(v as int),
{
    let c = int_chars(v);
    string_of(&c)
}

/// Digits grouped by threes from the right, with commas between groups.
pub open spec fn group_thousands(d: Seq<char>) -> Seq<char>
    decreases d.len(),
{
    if d.len() <= 3 {
        d
    } else {
        group_thousands(d.take(d.len() - 3)) + seq![','] + d.skip(d.len() - 3)
    }
}

/// An integer with thousands separators: `-1234567` is `-1,234,567`.
pub open spec fn grouped_text(v: int) -> Seq<char> {
    let g = group_thousands(nat_digits(if v < 0 { (-v) as nat } else { v as nat }));
    if v < 0 { seq!['-'] + g } else { g }
}

fn group_chars(d: &Vec<char>, len: usize) -> (r: Vec<char>)
    requires len <= d.len(),
    ensures r@ == group_thousands(d@.take(len as int)),
    decreases len,
{
    if len <= 3 {
        slice_chars(d, 0, len)
    } else {
        let mut r = group_chars(d, len - 3);
        r.push(',');
        let tail = slice_chars(d, len - 3, len);
        push_all(&mut r, &tail);
        proof {
            let t = d@.take(len as int);
            assert(t.take(t.len() - 3) =~= d@.take(len - 3));
            assert(t.skip(t.len() - 3) =~= d@.subrange(len - 3, len as int));
        }
        r
    }
}

/// Formats a count with thousands separators.
pub fn format_number(value: i64) -> (s: String)
    requires value > i64::MIN,
    ensures s@ == grouped_text(value as int),
{
    let magnitude: u64 = if value < 0 { (-value) as u64 } else { value as u64 };
    let d = u64_digits(magnitude);
    let g = group_chars(&d, d.len());
    proof { assert(d@.take(d@.len() as int) =~= d@); }
    let mut r: Vec<char> = Vec::new();
    if value < 0 {
        r.push('-');
    }
    push_all(&mut r, &g);
    proof {
        if value < 0 {
            assert(r@ =~= seq!['-'] + g@);
        } else {
            assert(r@ =~= g@);
        }
    }
    string_of(&r)
}

/// The character of a decimal digit value is an ASCII digit worth that value.
proof fn lemma_digit_char(d: nat)
    requires d < 10,
    ensures
        is_ascii_digit(((d + 48) as u32) as char),
        digit_value(((d + 48) as u32) as char) == d,
        ((d + 48) as u32) as char != '-',
        ((d + 48) as u32) as char != '+',
{
}

/// Every character of `nat_digits(n)` is an ASCII digit, and there is at least one.
pub proof fn lemma_nat_digits_are_digits(n: nat)
    ensures
        nat_digits(n).len() >= 1,
        forall|k: int| 0 <= k < nat_digits(n).len() ==> is_ascii_digit(#[trigger] nat_digits(n)[k]),
    decreases n,
{
    if n < 10 {
        lemma_digit_char(n);
    } else {
        lemma_nat_digits_are_digits(n / 10);
        lemma_digit_char(n % 10);
        let d = nat_digits(n / 10);
        assert forall|k: int| 0 <= k < nat_digits(n).len() implies is_ascii_digit(#[trigger] nat_digits(n)[k]) by {
            if k < d.len() {
                assert(nat_digits(n)[k] == d[k]);
            }
        }
    }
}

/// Scanning the digits of `n` accumulates `n`, or `-n` when negated, as
/// long as that fits in `i64`.
proof fn lemma_scan_nat_digits(n: nat, neg: bool)
    requires
        neg ==> n <= 0x8000_0000_0000_0000,
        !neg ==> n <= 0x7fff_ffff_ffff_ffff,
    ensures
        scan_digits(nat_digits(n), neg) == Ok::<int, IntTextError>(if neg { -(n as int) } else { n as int }),
    decreases n,
{
    let s = nat_digits(n);
    if n < 10 {
        lemma_digit_char(n);
        assert(s.drop_last() =~= Seq::<char>::empty());
        assert(scan_digits(s.drop_last(), neg) == Ok::<int, IntTextError>(0));
    } else {
        lemma_scan_nat_digits(n / 10, neg);
        lemma_digit_char(n % 10);
        assert(s.drop_last() =~= nat_digits(n / 10));
        assert(s.last() == (((n % 10) + 48) as u32) as char);
        assert((n / 10) * 10 + n % 10 == n);
    }
}

/// Reading back the decimal text of an integer gives that integer: what
/// `int_to_string` prints for `v`, `parse_i64` parses to `v`.
pub proof fn lemma_int_text_round_trip(v: i64)
    ensures parse_i64_spec(int_text(v as int)) == Ok::<int, IntTextError>(v as int),
{
    let t = int_text(v as int);
    if v < 0 {
        let m: nat = (-(v as int)) as nat;
        lemma_nat_digits_are_digits(m);
        lemma_scan_nat_digits(m, true);
        assert(t.drop_first() =~= nat_digits(m));
        assert(t[0] == '-');
    } else {
        let m: nat = v as nat;
        lemma_nat_digits_are_digits(m);
        lemma_scan_nat_digits(m, false);
        assert(is_ascii_digit(t[0]));
    }
}

/// The text with its thousands separators removed.
pub open spec fn without_separators(s: Seq<char>) -> Seq<char> {
    s.filter(|c: char| c != ',')
}

proof fn lemma_without_separators_plain(s: Seq<char>)
    requires forall|k: int| 0 <= k < s.len() ==> #[trigger] s[k] != ',',
    ensures without_separators(s) == s,
    decreases s.len(),
{
    reveal(Seq::filter);
    if s.len() > 0 {
        let t = s.drop_last();
        assert forall|k: int| 0 <= k < t.len() implies #[trigger] t[k] != ',' by {
            assert(t[k] == s[k]);
        }
        lemma_without_separators_plain(t);
        assert(t.push(s.last()) =~= s);
    }
}

proof fn lemma_group_without_separators(d: Seq<char>)
    requires forall|k: int| 0 <= k < d.len() ==> #[trigger] d[k] != ',',
    ensures without_separators(group_thousands(d)) == d,
    decreases d.len(),
{
    if d.len() <= 3 {
        lemma_without_separators_plain(d);
    } else {
        let head = d.take(d.len() - 3);
        let tail = d.skip(d.len() - 3);
        assert forall|k: int| 0 <= k < head.len() implies #[trigger] head[k] != ',' by {
            assert(head[k] == d[k]);
        }
        assert forall|k: int| 0 <= k < tail.len() implies #[trigger] tail[k] != ',' by {
            assert(tail[k] == d[k + d.len() - 3]);
        }
        lemma_group_without_separators(head);
        lemma_without_separators_plain(tail);
        let p = |c: char| c != ',';
        Seq::filter_distributes_over_add(group_thousands(head) + seq![','], tail, p);
        Seq::filter_distributes_over_add(group_thousands(head), seq![','], p);
        assert(without_separators(seq![',']) =~= Seq::<char>::empty()) by {
            reveal_with_fuel(Seq::filter, 2);
            assert(seq![','].drop_last() =~= Seq::<char>::empty());
        }
        assert(head + tail =~= d);
    }
}

/// Thousands grouping only inserts separators: with its commas removed,
/// what `format_number` prints for `v` is what `int_to_string` prints.
pub proof fn lemma_grouping_keeps_digits(v: int)
    ensures without_separators(grouped_text(v)) == int_text(v),
{
    let m: nat = if v < 0 { (-v) as nat } else { v as nat };
    lemma_nat_digits_are_digits(m);
    let d = nat_digits(m);
    assert forall|k: int| 0 <= k < d.len() implies #[trigger] d[k] != ',' by {
        assert(is_ascii_digit(d[k]));
    }
    lemma_group_without_separators(d);
    if v < 0 {
        let p = |c: char| c != ',';
        Seq::filter_distributes_over_add(seq!['-'], group_thousands(d), p);
        lemma_without_separators_plain(seq!['-']);
    }
}

/// The number that a string of decimal digits writes, most significant first.
pub open spec fn digits_worth(s: Seq<char>) -> int
    decreases s.len(),
{
    if s.len() == 0 { 0 } else { digits_worth(s.drop_last()) * 10 + digit_value(s.last()) }
}

/// The digits of `n` write `n`.
pub proof fn lemma_nat_digits_worth(n: nat)
    ensures digits_worth(nat_digits(n)) == n,
    decreases n,
{
    let s = nat_digits(n);
    lemma_digit_char(n % 10);
    if n < 10 {
        lemma_digit_char(n);
        assert(digits_worth(Seq::<char>::empty()) == 0);
        assert(s.drop_last() =~= Seq::<char>::empty());
    } else {
        lemma_nat_digits_worth(n / 10);
        assert(s.drop_last() =~= nat_digits(n / 10));
        assert(s.last() == (((n % 10) + 48) as u32) as char);
        assert((n / 10) * 10 + n % 10 == n);
    }
}

/// Leading zeros do not change the number that digits write.
pub proof fn lemma_leading_zeros_worth(z: nat, d: Seq<char>)
    ensures digits_worth(Seq::new(z, |i: int| '0') + d) == digits_worth(d),
    decreases d.len(), z,
{
    let zs = Seq::new(z, |i: int| '0');
    if d.len() == 0 {
        assert(zs + d =~= zs);
        if z > 0 {
            assert(zs.drop_last() =~= Seq::new((z - 1) as nat, |i: int| '0'));
            lemma_leading_zeros_worth((z - 1) as nat, d);
            assert(Seq::new((z - 1) as nat, |i: int| '0') + d =~= Seq::new((z - 1) as nat, |i: int| '0'));
        }
    } else {
        assert((zs + d).drop_last() =~= zs + d.drop_last());
        lemma_leading_zeros_worth(z, d.drop_last());
    }
}

} // verus!
