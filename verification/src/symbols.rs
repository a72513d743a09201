//! Futures symbols: root symbols of contract codes, exchanges and storage roots.
use vstd::prelude::*;
use vstd::string::StringExecFns;
use crate::text::{
    ascii_upper, chars_of, eq_lit, is_alnum_char, is_alpha_char, is_ascii_alnum,
    is_ascii_alpha, is_ascii_digit, is_digit_char, slice_chars, starts_with_chars, string_of, trim,
    trim_chars, trim_str, upper_chars,
};
use crate::options::view_opt;

verus! {

/// What `str::to_uppercase` returns for a text (Unicode upper-case mapping).
pub uninterp spec fn unicode_upper(s: Seq<char>) -> Seq<char>;

/// `str::to_uppercase`. Its contract names the result `unicode_upper` of the
/// text and says nothing more of the Unicode mapping.
#[verifier::external_body]
fn to_uppercase_text(s: &str) -> (r: String)
    ensures r@ == unicode_upper(s@),
{
    s.to_uppercase()
}

/// A symbol trimmed and upper-cased, as symbols are compared.
pub open spec fn clean_symbol_text(s: Seq<char>) -> Seq<char> {
    unicode_upper(trim(s))
}

/// Trims a symbol and maps it to upper case.
pub fn clean_symbol(value: &str) -> (r: String)
    ensures r@ == clean_symbol_text(value@),
{
    let t = trim_str(value);
    to_uppercase_text(t.as_str())
}

/// Trims a root symbol and maps it to upper case.
pub fn normalize_root_symbol(value: &str) -> (r: String)
    ensures r@ == clean_symbol_text(value@),
{
    clean_symbol(value)
}

/// The futures month codes F G H J K M N Q U V X Z.
pub open spec fn is_month_code(c: char) -> bool {
    c == 'F' || c == 'G' || c == 'H' || c == 'J' || c == 'K' || c == 'M' || c == 'N'
        || c == 'Q' || c == 'U' || c == 'V' || c == 'X' || c == 'Z'
}

pub fn is_month_code_char(c: char) -> (r: bool)
    ensures r == is_month_code(c),
{
    c == 'F' || c == 'G' || c == 'H' || c == 'J' || c == 'K' || c == 'M' || c == 'N'
        || c == 'Q' || c == 'U' || c == 'V' || c == 'X' || c == 'Z'
}

/// Whether position `i` of `u` starts a contract month: a month code after at
/// least one root character, followed by a digit.
pub open spec fn month_split_at(u: Seq<char>, i: int) -> bool {
    0 < i && i + 1 < u.len() && is_month_code(u[i]) && is_ascii_digit(u[i + 1])
}

/// The root of an upper-cased contract code, searching from position `i`:
/// the text before the first contract month, or all of it.
pub open spec fn contract_root_from(u: Seq<char>, i: int) -> Seq<char>
    decreases u.len() - i,
{
    if i < 0 || i + 1 >= u.len() {
        u
    } else if month_split_at(u, i) {
        u.take(i)
    } else {
        contract_root_from(u, i + 1)
    }
}

pub open spec fn root_from_contract_text(s: Seq<char>) -> Seq<char> {
    contract_root_from(unicode_upper(trim(s)), 0)
}

/// The root of an upper-cased contract code: the text before its first
/// contract month (a month code after at least one character, then a digit),
/// or all of it.
pub fn contract_root(upper: &str) -> (r: String)
    ensures r@ == contract_root_from(upper@, 0),
{
    let u = chars_of(upper);
    let n = u.len();
    let limit: usize = if n > 0 { n - 1 } else { 0 };
    let mut index: usize = 0;
    while index < limit
        invariant
            u@ == upper@,
            n == u.len(),
            limit == if n > 0 { n - 1 } else { 0 },
            index <= n,
            contract_root_from(u@, 0) == contract_root_from(u@, index as int),
        decreases n - index,
    {
        if is_month_code_char(u[index]) && is_digit_char(u[index + 1]) && index > 0 {
            let r = slice_chars(&u, 0, index);
            proof { assert(u@.subrange(0, index as int) =~= u@.take(index as int)); }
            return string_of(&r);
        }
        index = index + 1;
    }
    string_of(&u)
}

/// The root symbol of a contract code: `ESM6` gives `ES`, `6EH25` gives `6E`.
pub fn root_symbol_from_contract(symbol: &str) -> (r: String)
    ensures r@ == root_from_contract_text(symbol@),
{
    let t = trim_str(symbol);
    let upper = to_uppercase_text(t.as_str());
    contract_root(upper.as_str())
}

/// The symbol fields of a pattern setup that name its market.
pub struct SetupSymbols {
    pub root_symbol: Option<String>,
    pub contract_symbol: Option<String>,
    pub symbol: String,
}

/// The first present, non-blank, trimmed text among the candidates, or `fallback`.
pub open spec fn first_clean(a: Option<Seq<char>>, b: Option<Seq<char>>, c: Seq<char>, fallback: Seq<char>) -> Seq<char> {
    if a is Some && trim(a->0).len() > 0 {
        trim(a->0)
    } else if b is Some && trim(b->0).len() > 0 {
        trim(b->0)
    } else if trim(c).len() > 0 {
        trim(c)
    } else {
        fallback
    }
}

pub open spec fn is_treasury_contract(r: Seq<char>) -> bool {
    &&& r.len() >= 4
    &&& r[0] == 'Z'
    &&& (r[1] == 'B' || r[1] == 'N')
    &&& is_month_code(r[2])
    &&& is_ascii_digit(r[3])
}

pub open spec fn normalized_root_text(s: SetupSymbols) -> Seq<char> {
    let r = ascii_upper(first_clean(view_opt(s.root_symbol), view_opt(s.contract_symbol), s.symbol@, "Unknown"@));
    if is_treasury_contract(r) { r.take(2) } else { r }
}

fn first_clean_chars(a: &Option<String>, b: &Option<String>, c: &String, fallback: &str) -> (r: Vec<char>)
    ensures r@ == first_clean(view_opt(*a), view_opt(*b), c@, fallback@),
{
    if let Some(x) = a {
        let t = trim_chars(&chars_of(x.as_str()));
        if t.len() > 0 {
            return t;
        }
    }
    if let Some(x) = b {
        let t = trim_chars(&chars_of(x.as_str()));
        if t.len() > 0 {
            return t;
        }
    }
    let t = trim_chars(&chars_of(c.as_str()));
    if t.len() > 0 {
        return t;
    }
    chars_of(fallback)
}

/// The root symbol a setup is grouped by: its first non-blank symbol field in
/// upper case, with Treasury contracts such as `ZNH6` cut to `ZN`.
pub fn normalized_root_symbol(setup: &SetupSymbols) -> (r: String)
    ensures r@ == normalized_root_text(*setup),
{
    let picked = first_clean_chars(&setup.root_symbol, &setup.contract_symbol, &setup.symbol, "Unknown");
    let root = upper_chars(&picked);
    if root.len() >= 4 && root[0] == 'Z' && (root[1] == 'B' || root[1] == 'N')
        && is_month_code_char(root[2]) && is_digit_char(root[3]) {
        let two = slice_chars(&root, 0, 2);
        proof { assert(root@.subrange(0, 2) =~= root@.take(2)); }
        string_of(&two)
    } else {
        string_of(&root)
    }
}

/// The text whose root `tick_size_for_setup` looks up: the first non-blank
/// symbol field, or the symbol as it is.
pub open spec fn tick_root_text(s: SetupSymbols) -> Seq<char> {
    root_from_contract_text(first_clean(view_opt(s.root_symbol), view_opt(s.contract_symbol), s.symbol@, s.symbol@))
}

/// The root symbol by which a setup's tick size is chosen.
pub fn tick_root_for_setup(setup: &SetupSymbols) -> (r: String)
    ensures r@ == tick_root_text(*setup),
{
    let picked = first_clean_chars(&setup.root_symbol, &setup.contract_symbol, &setup.symbol, setup.symbol.as_str());
    let s = string_of(&picked);
    root_symbol_from_contract(s.as_str())
}

pub open spec fn exchange_of(r: Seq<char>) -> Seq<char> {
    if r == "6A"@ || r == "6B"@ || r == "6C"@ || r == "6E"@ || r == "6J"@ || r == "6M"@
        || r == "6N"@ || r == "6S"@ || r == "BTC"@ || r == "EMD"@ || r == "ES"@ || r == "GF"@
        || r == "HE"@ || r == "LE"@ || r == "M2K"@ || r == "MES"@ || r == "MNQ"@ || r == "NKD"@
        || r == "NQ"@ || r == "RTY"@ {
        "CME"@
    } else if r == "KE"@ || r == "UB"@ || r == "YM"@ || r == "ZB"@ || r == "ZC"@ || r == "ZF"@
        || r == "ZL"@ || r == "ZM"@ || r == "ZN"@ || r == "ZS"@ || r == "ZT"@ || r == "ZW"@ {
        "CBOT"@
    } else if r == "GC"@ || r == "HG"@ || r == "MGC"@ || r == "SI"@ {
        "COMEX"@
    } else if r == "CL"@ || r == "HO"@ || r == "MCL"@ || r == "NG"@ || r == "PA"@ || r == "PL"@
        || r == "QG"@ || r == "QM"@ || r == "RB"@ {
        "NYMEX"@
    } else {
        "Unknown"@
    }
}

/// The exchange a root symbol trades on.
pub fn exchange_for_root(root_symbol: &str) -> (r: String)
    ensures r@ == exchange_of(root_symbol@),
{
    let r = chars_of(root_symbol);
    if eq_lit(&r, "6A") || eq_lit(&r, "6B") || eq_lit(&r, "6C") || eq_lit(&r, "6E") || eq_lit(&r, "6J")
        || eq_lit(&r, "6M") || eq_lit(&r, "6N") || eq_lit(&r, "6S") || eq_lit(&r, "BTC")
        || eq_lit(&r, "EMD") || eq_lit(&r, "ES") || eq_lit(&r, "GF") || eq_lit(&r, "HE")
        || eq_lit(&r, "LE") || eq_lit(&r, "M2K") || eq_lit(&r, "MES") || eq_lit(&r, "MNQ")
        || eq_lit(&r, "NKD") || eq_lit(&r, "NQ") || eq_lit(&r, "RTY") {
        String::from_str("CME")
    } else if eq_lit(&r, "KE") || eq_lit(&r, "UB") || eq_lit(&r, "YM") || eq_lit(&r, "ZB")
        || eq_lit(&r, "ZC") || eq_lit(&r, "ZF") || eq_lit(&r, "ZL") || eq_lit(&r, "ZM")
        || eq_lit(&r, "ZN") || eq_lit(&r, "ZS") || eq_lit(&r, "ZT") || eq_lit(&r, "ZW") {
        String::from_str("CBOT")
    } else if eq_lit(&r, "GC") || eq_lit(&r, "HG") || eq_lit(&r, "MGC") || eq_lit(&r, "SI") {
        String::from_str("COMEX")
    } else if eq_lit(&r, "CL") || eq_lit(&r, "HO") || eq_lit(&r, "MCL") || eq_lit(&r, "NG")
        || eq_lit(&r, "PA") || eq_lit(&r, "PL") || eq_lit(&r, "QG") || eq_lit(&r, "QM")
        || eq_lit(&r, "RB") {
        String::from_str("NYMEX")
    } else {
        String::from_str("Unknown")
    }
}

/// The roots that `known_futures_root` recognises by prefix, in the order tried.
pub open spec fn known_roots() -> Seq<Seq<char>> {
    seq![
        "M6A"@, "M6B"@, "M6C"@, "M6E"@, "M6J"@, "M6S"@, "M6N"@, "MES"@, "MNQ"@, "MYM"@, "M2K"@,
        "MGC"@, "MCL"@, "MBT"@, "MET"@, "RTY"@, "EMD"@, "NKD"@, "6A"@, "6B"@, "6C"@, "6E"@, "6J"@,
        "6S"@, "6N"@, "ES"@, "NQ"@, "YM"@, "CL"@, "QM"@, "NG"@, "QG"@, "HO"@, "RB"@, "GC"@, "SI"@,
        "HG"@, "PL"@, "PA"@, "QI"@, "QO"@, "ZC"@, "ZW"@, "ZS"@, "ZM"@, "ZL"@, "HE"@, "LE"@, "GF"@,
        "ZN"@, "ZB"@
    ]
}

fn known_root_list() -> (r: Vec<&'static str>)
    ensures r@.map_values(|s: &'static str| s@) == known_roots(),
{
    let r = vec![
        "M6A", "M6B", "M6C", "M6E", "M6J", "M6S", "M6N", "MES", "MNQ", "MYM", "M2K", "MGC", "MCL",
        "MBT", "MET", "RTY", "EMD", "NKD", "6A", "6B", "6C", "6E", "6J", "6S", "6N", "ES", "NQ",
        "YM", "CL", "QM", "NG", "QG", "HO", "RB", "GC", "SI", "HG", "PL", "PA", "QI", "QO", "ZC",
        "ZW", "ZS", "ZM", "ZL", "HE", "LE", "GF", "ZN", "ZB",
    ];
    assert(r@.map_values(|s: &'static str| s@) =~= known_roots());
    r
}

pub open spec fn is_symbol_separator(c: char) -> bool {
    c == '.' || c == ' ' || c == '_'
}

/// The text before the first `.`, space or `_`.
pub open spec fn first_piece(u: Seq<char>) -> Seq<char>
    decreases u.len(),
{
    if u.len() == 0 {
        u
    } else if is_symbol_separator(u[0]) {
        Seq::empty()
    } else {
        seq![u[0]] + first_piece(u.drop_first())
    }
}

pub open spec fn has_prefix(s: Seq<char>, p: Seq<char>) -> bool {
    p.len() <= s.len() && s.take(p.len() as int) == p
}

/// The first entry of `roots`, from position `i` on, that `s` starts with.
pub open spec fn first_prefix_root(roots: Seq<Seq<char>>, s: Seq<char>, i: int) -> Option<Seq<char>>
    decreases roots.len() - i,
{
    if i < 0 || i >= roots.len() {
        None
    } else if has_prefix(s, roots[i]) {
        Some(roots[i])
    } else {
        first_prefix_root(roots, s, i + 1)
    }
}

/// The longest prefix of `s` whose characters all satisfy ASCII alphanumeric.
pub open spec fn alnum_prefix(s: Seq<char>) -> Seq<char>
    decreases s.len(),
{
    if s.len() > 0 && is_ascii_alnum(s[0]) { seq![s[0]] + alnum_prefix(s.drop_first()) } else { Seq::empty() }
}

/// The longest prefix of `s` whose characters are ASCII letters.
pub open spec fn alpha_prefix(s: Seq<char>) -> Seq<char>
    decreases s.len(),
{
    if s.len() > 0 && is_ascii_alpha(s[0]) { seq![s[0]] + alpha_prefix(s.drop_first()) } else { Seq::empty() }
}

/// A month code then two digits at the end (`Z25`).
pub open spec fn ends_month_two_digits(c: Seq<char>) -> bool {
    c.len() >= 3 && is_ascii_digit(c[c.len() - 2]) && is_ascii_digit(c[c.len() - 1]) && is_month_code(c[c.len() - 3])
}

/// A month code then one digit at the end (`Z5`).
pub open spec fn ends_month_digit(c: Seq<char>) -> bool {
    c.len() >= 2 && is_ascii_digit(c[c.len() - 1]) && is_month_code(c[c.len() - 2])
}

pub open spec fn known_root_text(symbol: Seq<char>) -> Seq<char> {
    known_root_of_upper(clean_symbol_text(symbol))
}

/// The root of an upper-cased Databento symbol, read from its first piece.
pub open spec fn known_root_of_upper(u: Seq<char>) -> Seq<char> {
    let c = first_piece(u);
    match first_prefix_root(known_roots(), c, 0) {
        Some(r) => r,
        None => {
            if ends_month_two_digits(c) {
                c.take(c.len() - 3)
            } else if ends_month_digit(c) {
                c.take(c.len() - 2)
            } else {
                alnum_prefix(c)
            }
        }
    }
}

proof fn lemma_first_piece_take(u: Seq<char>, i: int)
    requires
        0 <= i <= u.len(),
        forall|k: int| 0 <= k < i ==> !is_symbol_separator(#[trigger] u[k]),
        i == u.len() || is_symbol_separator(u[i]),
    ensures first_piece(u) == u.take(i),
    decreases i,
{
    if i == 0 {
        assert(u.take(0) =~= Seq::<char>::empty());
    } else {
        let t = u.drop_first();
        assert forall|k: int| 0 <= k < i - 1 implies !is_symbol_separator(#[trigger] t[k]) by {
            assert(t[k] == u[k + 1]);
        }
        lemma_first_piece_take(t, i - 1);
        assert(seq![u[0]] + t.take(i - 1) =~= u.take(i));
    }
}

proof fn lemma_alnum_prefix_take(u: Seq<char>, i: int)
    requires
        0 <= i <= u.len(),
        forall|k: int| 0 <= k < i ==> is_ascii_alnum(#[trigger] u[k]),
        i == u.len() || !is_ascii_alnum(u[i]),
    ensures alnum_prefix(u) == u.take(i),
    decreases i,
{
    if i == 0 {
        assert(u.take(0) =~= Seq::<char>::empty());
    } else {
        let t = u.drop_first();
        assert forall|k: int| 0 <= k < i - 1 implies is_ascii_alnum(#[trigger] t[k]) by {
            assert(t[k] == u[k + 1]);
        }
        lemma_alnum_prefix_take(t, i - 1);
        assert(seq![u[0]] + t.take(i - 1) =~= u.take(i));
    }
}

proof fn lemma_alpha_prefix_take(u: Seq<char>, i: int)
    requires
        0 <= i <= u.len(),
        forall|k: int| 0 <= k < i ==> is_ascii_alpha(#[trigger] u[k]),
        i == u.len() || !is_ascii_alpha(u[i]),
    ensures alpha_prefix(u) == u.take(i),
    decreases i,
{
    if i == 0 {
        assert(u.take(0) =~= Seq::<char>::empty());
    } else {
        let t = u.drop_first();
        assert forall|k: int| 0 <= k < i - 1 implies is_ascii_alpha(#[trigger] t[k]) by {
            assert(t[k] == u[k + 1]);
        }
        lemma_alpha_prefix_take(t, i - 1);
        assert(seq![u[0]] + t.take(i - 1) =~= u.take(i));
    }
}

/// The characters before the first `.`, space or `_`.
fn first_piece_chars(u: &Vec<char>) -> (r: Vec<char>)
    ensures r@ == first_piece(u@),
{
    let mut i: usize = 0;
    while i < u.len() && !(u[i] == '.' || u[i] == ' ' || u[i] == '_')
        invariant
            i <= u.len(),
            forall|k: int| 0 <= k < i ==> !is_symbol_separator(#[trigger] u@[k]),
        decreases u.len() - i,
    {
        i = i + 1;
    }
    proof {
        lemma_first_piece_take(u@, i as int);
        assert(u@.subrange(0, i as int) =~= u@.take(i as int));
    }
    slice_chars(u, 0, i)
}

fn alnum_prefix_chars(u: &Vec<char>) -> (r: Vec<char>)
    ensures r@ == alnum_prefix(u@),
{
    let mut i: usize = 0;
    while i < u.len() && is_alnum_char(u[i])
        invariant
            i <= u.len(),
            forall|k: int| 0 <= k < i ==> is_ascii_alnum(#[trigger] u@[k]),
        decreases u.len() - i,
    {
        i = i + 1;
    }
    proof {
        lemma_alnum_prefix_take(u@, i as int);
        assert(u@.subrange(0, i as int) =~= u@.take(i as int));
    }
    slice_chars(u, 0, i)
}

fn alpha_prefix_chars(u: &Vec<char>) -> (r: Vec<char>)
    ensures r@ == alpha_prefix(u@),
{
    let mut i: usize = 0;
    while i < u.len() && is_alpha_char(u[i])
        invariant
            i <= u.len(),
            forall|k: int| 0 <= k < i ==> is_ascii_alpha(#[trigger] u@[k]),
        decreases u.len() - i,
    {
        i = i + 1;
    }
    proof {
        lemma_alpha_prefix_take(u@, i as int);
        assert(u@.subrange(0, i as int) =~= u@.take(i as int));
    }
    slice_chars(u, 0, i)
}

/// The root of a Databento futures symbol: a known root it starts with, else
/// the text before a trailing contract month, else its leading alphanumerics.
pub fn known_futures_root(symbol: &str) -> (r: String)
    ensures r@ == known_root_text(symbol@),
{
    let cleaned = clean_symbol(symbol);
    known_root_from_upper(cleaned.as_str())
}

/// The root of an upper-cased Databento symbol: a known root its first piece
/// starts with, else that piece before a trailing contract month, else its
/// leading alphanumerics.
pub fn known_root_from_upper(upper: &str) -> (r: String)
    ensures r@ == known_root_of_upper(upper@),
{
    let c = first_piece_chars(&chars_of(upper));
    let roots = known_root_list();
    let mut i: usize = 0;
    while i < roots.len()
        invariant
            i <= roots.len(),
            roots@.map_values(|s: &'static str| s@) == known_roots(),
            c@ == first_piece(upper@),
            first_prefix_root(known_roots(), c@, 0) == first_prefix_root(known_roots(), c@, i as int),
        decreases roots.len() - i,
    {
        let root = chars_of(roots[i]);
        proof { assert(known_roots()[i as int] == roots@[i as int]@); }
        if starts_with_chars(&c, &root) {
            return String::from_str(roots[i]);
        }
        i = i + 1;
    }
    let n = c.len();
    if n >= 3 && is_digit_char(c[n - 2]) && is_digit_char(c[n - 1]) && is_month_code_char(c[n - 3]) {
        let r = slice_chars(&c, 0, n - 3);
        proof { assert(c@.subrange(0, n - 3) =~= c@.take(n - 3)); }
        return string_of(&r);
    }
    if n >= 2 && is_digit_char(c[n - 1]) && is_month_code_char(c[n - 2]) {
        let r = slice_chars(&c, 0, n - 2);
        proof { assert(c@.subrange(0, n - 2) =~= c@.take(n - 2)); }
        return string_of(&r);
    }
    let r = alnum_prefix_chars(&c);
    string_of(&r)
}

pub open spec fn metadata_root_text(raw: Seq<char>, asset: Option<Seq<char>>, underlying: Option<Seq<char>>) -> Seq<char> {
    if underlying is Some && trim(underlying->0).len() > 0 && known_root_text(trim(underlying->0)).len() > 0 {
        known_root_text(trim(underlying->0))
    } else if asset is Some && trim(asset->0).len() > 0 && known_root_text(trim(asset->0)).len() > 0 {
        known_root_text(trim(asset->0))
    } else {
        known_root_text(raw)
    }
}

/// The optional view of an optional string slice.
pub open spec fn view_opt_str(o: Option<&str>) -> Option<Seq<char>> {
    match o {
        Some(s) => Some(s@),
        None => None,
    }
}

/// The root of a symbol's metadata: from its underlying, else its asset, else
/// its raw symbol, the first that yields a non-empty root.
pub fn metadata_root(raw_symbol: &str, asset: Option<&str>, underlying: Option<&str>) -> (r: String)
    ensures r@ == metadata_root_text(raw_symbol@, view_opt_str(asset), view_opt_str(underlying)),
{
    if let Some(v) = underlying {
        let t = trim_str(v);
        if t.unicode_len() > 0 {
            let root = known_futures_root(t.as_str());
            if root.unicode_len() > 0 {
                return root;
            }
        }
    }
    if let Some(v) = asset {
        let t = trim_str(v);
        if t.unicode_len() > 0 {
            let root = known_futures_root(t.as_str());
            if root.unicode_len() > 0 {
                return root;
            }
        }
    }
    known_futures_root(raw_symbol)
}

pub open spec fn storage_root_text(symbol: Seq<char>) -> Seq<char> {
    storage_root_of_upper(clean_symbol_text(symbol))
}

/// The storage root of an upper-cased contract symbol.
pub open spec fn storage_root_of_upper(u: Seq<char>) -> Seq<char> {
    if ends_month_two_digits(u) {
        u.take(u.len() - 3)
    } else if ends_month_digit(u) {
        u.take(u.len() - 2)
    } else if u.len() >= 2 && u[0] == '6' {
        u.take(2)
    } else if alpha_prefix(u).len() == 0 {
        u
    } else {
        alpha_prefix(u)
    }
}

/// The root under which a contract's candles are stored.
pub fn futures_storage_root(symbol: &str) -> (r: String)
    ensures r@ == storage_root_text(symbol@),
{
    let upper = clean_symbol(symbol);
    storage_root_from_upper(upper.as_str())
}

/// The storage root of an upper-cased contract symbol: the text before a
/// trailing contract month, else the first two characters of a currency
/// contract (`6E`), else its leading letters, else all of it.
pub fn storage_root_from_upper(upper: &str) -> (r: String)
    ensures r@ == storage_root_of_upper(upper@),
{
    let c = chars_of(upper);
    let n = c.len();
    if n >= 3 && is_digit_char(c[n - 2]) && is_digit_char(c[n - 1]) && is_month_code_char(c[n - 3]) {
        let r = slice_chars(&c, 0, n - 3);
        proof { assert(c@.subrange(0, n - 3) =~= c@.take(n - 3)); }
        return string_of(&r);
    }
    if n >= 2 && is_digit_char(c[n - 1]) && is_month_code_char(c[n - 2]) {
        let r = slice_chars(&c, 0, n - 2);
        proof { assert(c@.subrange(0, n - 2) =~= c@.take(n - 2)); }
        return string_of(&r);
    }
    if n >= 2 && c[0] == '6' {
        let r = slice_chars(&c, 0, 2);
        proof { assert(c@.subrange(0, 2) =~= c@.take(2)); }
        return string_of(&r);
    }
    let root = alpha_prefix_chars(&c);
    if root.len() == 0 {
        string_of(&c)
    } else {
        string_of(&root)
    }
}

} // verus!
