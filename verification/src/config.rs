//! Configuration: quote provider selection, watchlist entries and their
//! parsing, symbol normalisation, and the settings read from the
//! environment.

use vstd::prelude::*;
use crate::models::{Listing, Market, WatchlistItem, hk_suffix, market_of};
use crate::number::{int_error_message, int_error_text, is_digit, parse_u64, u64_of};
use crate::text::{
    chars_of, ends_with, eq_ignore_case, eq_ignore_case_at, find_char, index_of, lemma_split_nonempty,
    lower_range, lower_seq, pieces, push_char, range_equals, same_chars, skip_zeros, split,
    split_ranges, string_of, strip_zeros, to_upper, trim, trim_end, trim_range, trim_start,
    upper_range, upper_seq,
};

verus! {

/// Where quotes come from.
#[derive(Debug, Clone, Copy, PartialEq, Eq, Structural)]
pub enum QuoteProviderKind {
    Mock,
    Longbridge,
}

/// The configuration name of a provider kind.
pub open spec fn provider_name(kind: QuoteProviderKind) -> Seq<char> {
    match kind {
        QuoteProviderKind::Mock => "mock"@,
        QuoteProviderKind::Longbridge => "longbridge"@,
    }
}

/// The provider kind named by `value`, compared after ASCII lower-casing;
/// otherwise the message `` unsupported QUOTE_PROVIDER `<lower-cased value>` ``.
pub open spec fn provider_from_name(value: Seq<char>) -> Result<QuoteProviderKind, Seq<char>> {
    if lower_seq(value) == "mock"@ {
        Ok(QuoteProviderKind::Mock)
    } else if lower_seq(value) == "longbridge"@ {
        Ok(QuoteProviderKind::Longbridge)
    } else {
        Err("unsupported QUOTE_PROVIDER `"@ + lower_seq(value) + "`"@)
    }
}

impl QuoteProviderKind {
    /// The configuration name of the provider kind.
    pub fn as_str(self) -> (s: &'static str)
        ensures
            s@ == provider_name(self),
    {
        match self {
            QuoteProviderKind::Mock => "mock",
            QuoteProviderKind::Longbridge => "longbridge",
        }
    }

    /// Reads a provider kind from its configuration name, in any ASCII case.
    pub fn parse(value: &str) -> (r: Result<QuoteProviderKind, String>)
        ensures
            match (r, provider_from_name(value@)) {
                (Ok(k), Ok(k2)) => k == k2,
                (Err(m), Err(m2)) => m@ == m2,
                _ => false,
            },
    {
        let v = chars_of(value);
        let low = lower_range(&v, 0, v.len());
        assert(v@.subrange(0, v@.len() as int) == v@);
        let mock = chars_of("mock");
        let longbridge = chars_of("longbridge");
        if same_chars(&low, &mock) {
            Ok(QuoteProviderKind::Mock)
        } else if same_chars(&low, &longbridge) {
            Ok(QuoteProviderKind::Longbridge)
        } else {
            let mut msg = "unsupported QUOTE_PROVIDER `".to_owned();
            append_chars(&mut msg, &low, 0, low.len());
            assert(low@.subrange(0, low@.len() as int) == low@);
            msg.append("`");
            Err(msg)
        }
    }
}

/// Appends `v[lo..hi]` to `s`.
pub fn append_chars(s: &mut String, v: &Vec<char>, lo: usize, hi: usize)
    requires
        lo <= hi <= v.len(),
    ensures
        final(s)@ == old(s)@ + v@.subrange(lo as int, hi as int),
{
    let mut i = lo;
    while i < hi
        invariant
            lo <= i <= hi <= v.len(),
            s@ == old(s)@ + v@.subrange(lo as int, i as int),
        decreases hi - i,
    {
        push_char(s, v[i]);
        assert(v@.subrange(lo as int, i + 1) == v@.subrange(lo as int, i as int).push(v@[i as int]));
        i = i + 1;
    }
}

/// The model of a watchlist entry.
pub struct WatchEntry {
    pub symbol: Seq<char>,
    pub provider_symbol: Seq<char>,
    pub name: Seq<char>,
    pub market: Market,
}

/// The symbol under which the quote provider knows `symbol`: the part
/// before the first `.` is kept, the part after it is ASCII upper-cased;
/// for Hong Kong symbols (market part `HK` in any case) the leading zeros
/// of the code are dropped, leaving `0` for an all-zero code.  A symbol
/// without `.` is kept as it is.
pub open spec fn provider_symbol_of(symbol: Seq<char>) -> Seq<char> {
    let i = index_of(symbol, '.');
    if i >= symbol.len() {
        symbol
    } else {
        let code = symbol.subrange(0, i);
        let market = symbol.subrange(i + 1, symbol.len() as int);
        let shown_code = if eq_ignore_case(market, "HK"@) {
            if strip_zeros(code).len() == 0 {
                seq!['0']
            } else {
                strip_zeros(code)
            }
        } else {
            code
        };
        shown_code + seq!['.'] + upper_seq(market)
    }
}

/// The watchlist entry for a display symbol, a name and a market.
pub open spec fn entry_of(symbol: Seq<char>, name: Seq<char>, market: Market) -> WatchEntry {
    WatchEntry { symbol, provider_symbol: provider_symbol_of(symbol), name, market }
}

/// A watched symbol: the symbol shown to devices, the symbol the quote
/// provider uses, a display name and the market.
#[derive(Debug, PartialEq, Eq)]
pub struct WatchItem {
    pub symbol: String,
    pub provider_symbol: String,
    pub name: String,
    pub market: Market,
}

impl View for WatchItem {
    type V = WatchEntry;

    open spec fn view(&self) -> WatchEntry {
        WatchEntry {
            symbol: self.symbol@,
            provider_symbol: self.provider_symbol@,
            name: self.name@,
            market: self.market,
        }
    }
}

impl Clone for WatchItem {
    fn clone(&self) -> (r: Self)
        ensures
            r == *self,
    {
        WatchItem {
            symbol: self.symbol.clone(),
            provider_symbol: self.provider_symbol.clone(),
            name: self.name.clone(),
            market: self.market,
        }
    }
}

impl DeepView for WatchItem {
    type V = WatchEntry;

    open spec fn deep_view(&self) -> WatchEntry {
        self@
    }
}

/// The provider symbol for a display symbol (see `provider_symbol_of`).
pub fn normalize_provider_symbol(symbol: &str) -> (r: String)
    ensures
        r@ == provider_symbol_of(symbol@),
{
    let v = chars_of(symbol);
    let n = v.len();
    assert(v@.subrange(0, n as int) == v@);
    let i = find_char(&v, 0, n, '.');
    if i == n {
        return string_of(&v, 0, n);
    }
    let hk = chars_of("HK");
    let mut out = String::new();
    if eq_ignore_case_at(&v, i + 1, n, &hk) {
        let a = skip_zeros(&v, 0, i);
        if a == i {
            push_char(&mut out, '0');
        } else {
            append_chars(&mut out, &v, a, i);
        }
    } else {
        append_chars(&mut out, &v, 0, i);
    }
    push_char(&mut out, '.');
    let mut k = i + 1;
    while k < n
        invariant
            i + 1 <= k <= n,
            n == v.len(),
            out@ == (if eq_ignore_case(v@.subrange(i + 1, n as int), "HK"@) {
                if strip_zeros(v@.subrange(0, i as int)).len() == 0 {
                    seq!['0']
                } else {
                    strip_zeros(v@.subrange(0, i as int))
                }
            } else {
                v@.subrange(0, i as int)
            }) + seq!['.'] + upper_seq(v@.subrange(i + 1, k as int)),
        decreases n - k,
    {
        push_char(&mut out, to_upper(v[k]));
        assert(upper_seq(v@.subrange(i + 1, k + 1)) == upper_seq(v@.subrange(i + 1, k as int)).push(
            crate::text::upper(v@[k as int]),
        ));
        k = k + 1;
    }
    out
}

impl WatchItem {
    /// A watch item for `symbol`, with its provider symbol derived from it.
    pub fn new(symbol: &str, name: &str, market: Market) -> (w: WatchItem)
        ensures
            w@ == entry_of(symbol@, name@, market),
    {
        WatchItem {
            provider_symbol: normalize_provider_symbol(symbol),
            symbol: symbol.to_owned(),
            name: name.to_owned(),
            market,
        }
    }
}

/// The symbol and name of a trimmed, non-empty watchlist entry
/// `SYMBOL[:NAME[:...]]`: both parts are trimmed, the name falls back to the
/// symbol when it is missing or empty, and an empty symbol makes the entry
/// invalid.
pub open spec fn entry_fields(entry: Seq<char>) -> Option<(Seq<char>, Seq<char>)> {
    let parts = split(entry, ':');
    let symbol = trim(parts[0]);
    if symbol.len() == 0 {
        None
    } else {
        let name = if parts.len() > 1 && trim(parts[1]).len() > 0 {
            trim(parts[1])
        } else {
            symbol
        };
        Some((symbol, name))
    }
}

/// The watch item for the symbol and name of an entry.
pub open spec fn entry_for(fields: (Seq<char>, Seq<char>)) -> WatchEntry {
    entry_of(fields.0, fields.1, market_of(fields.0))
}

/// The items of the comma-separated entries, in order, skipping blank
/// entries; the first invalid entry (trimmed) is the error.
pub open spec fn parse_entries(entries: Seq<Seq<char>>) -> Result<Seq<WatchEntry>, Seq<char>>
    decreases entries.len(),
{
    if entries.len() == 0 {
        Ok(Seq::empty())
    } else {
        match parse_entries(entries.drop_last()) {
            Err(e) => Err(e),
            Ok(items) => {
                let e = trim(entries.last());
                if e.len() == 0 {
                    Ok(items)
                } else {
                    match entry_fields(e) {
                        None => Err(e),
                        Some(f) => Ok(items.push(entry_for(f))),
                    }
                }
            },
        }
    }
}

/// The watchlist that a `WATCHLIST` value describes, or the message for its
/// first invalid entry: `` invalid WATCHLIST entry `<entry>` ``.
pub open spec fn watchlist_of(value: Seq<char>) -> Result<Seq<WatchEntry>, Seq<char>> {
    match parse_entries(split(value, ',')) {
        Ok(items) => Ok(items),
        Err(e) => Err("invalid WATCHLIST entry `"@ + e + "`"@),
    }
}

/// The model of a parse result.
pub open spec fn parsed_view(r: Result<Vec<WatchItem>, String>) -> Result<Seq<WatchEntry>, Seq<char>> {
    match r {
        Ok(v) => Ok(v.deep_view()),
        Err(m) => Err(m@),
    }
}

/// Once a prefix of the entries fails, the whole list fails the same way.
proof fn lemma_failure_sticks(entries: Seq<Seq<char>>, k: int)
    requires
        0 <= k <= entries.len(),
        parse_entries(entries.take(k)) is Err,
    ensures
        parse_entries(entries) == parse_entries(entries.take(k)),
    decreases entries.len() - k,
{
    if k < entries.len() {
        assert(entries.take(k + 1).drop_last() == entries.take(k));
        lemma_failure_sticks(entries, k + 1);
    } else {
        assert(entries.take(k) == entries);
    }
}

/// Parses a comma-separated `SYMBOL:Name` list.
pub fn parse_watchlist(value: &str) -> (r: Result<Vec<WatchItem>, String>)
    ensures
        parsed_view(r) == watchlist_of(value@),
{
    let v = chars_of(value);
    let n = v.len();
    assert(v@.subrange(0, n as int) == v@);
    let ranges = split_ranges(&v, 0, n, ',');
    let ghost entries = pieces(v@, ranges@);
    let mut items: Vec<WatchItem> = Vec::new();
    let mut k: usize = 0;
    assert(entries.take(0) == Seq::<Seq<char>>::empty());
    assert(items.deep_view() == Seq::<WatchEntry>::empty());
    while k < ranges.len()
        invariant
            n == v.len(),
            k <= ranges.len(),
            entries == pieces(v@, ranges@),
            entries == split(value@, ','),
            forall|j: int| 0 <= j < ranges.len() ==> 0 <= (#[trigger] ranges@[j]).0 <= ranges@[j].1 <= n,
            parse_entries(entries.take(k as int)) == Ok::<Seq<WatchEntry>, Seq<char>>(items.deep_view()),
        decreases ranges.len() - k,
    {
        let ghost before = items.deep_view();
        assert(entries.take(k + 1).drop_last() == entries.take(k as int));
        assert(entries.take(k + 1).last() == v@.subrange(ranges@[k as int].0 as int, ranges@[k as int].1 as int));
        let (a, b) = trim_range(&v, ranges[k].0, ranges[k].1);
        if a < b {
            let parts = split_ranges(&v, a, b, ':');
            proof {
                lemma_split_nonempty(v@.subrange(a as int, b as int), ':');
            }
            let (s0, s1) = trim_range(&v, parts[0].0, parts[0].1);
            if s0 == s1 {
                let mut msg = "invalid WATCHLIST entry `".to_owned();
                append_chars(&mut msg, &v, a, b);
                msg.append("`");
                proof {
                    lemma_failure_sticks(entries, k + 1);
                }
                return Err(msg);
            }
            let mut n0 = s0;
            let mut n1 = s1;
            if parts.len() > 1 {
                let (t0, t1) = trim_range(&v, parts[1].0, parts[1].1);
                if t0 < t1 {
                    n0 = t0;
                    n1 = t1;
                }
            }
            let symbol = string_of(&v, s0, s1);
            let name = string_of(&v, n0, n1);
            let market = Market::infer(symbol.as_str());
            let item = WatchItem::new(symbol.as_str(), name.as_str(), market);
            items.push(item);
            assert(items.deep_view() == before.push(item@));
        }
        k = k + 1;
    }
    assert(entries.take(ranges.len() as int) == entries);
    Ok(items)
}

/// The built-in demo watchlist.
pub open spec fn default_entries() -> Seq<WatchEntry> {
    seq![
        entry_of("000001.SH"@, "上证指数"@, Market::Cn),
        entry_of("399001.SZ"@, "深证成指"@, Market::Cn),
        entry_of("600519.SH"@, "贵州茅台"@, Market::Cn),
        entry_of("00700.HK"@, "腾讯控股"@, Market::Hk),
        entry_of("09988.HK"@, "阿里巴巴-W"@, Market::Hk),
    ]
}

/// The built-in demo watchlist: three mainland and two Hong Kong symbols.
pub fn default_watchlist() -> (v: Vec<WatchItem>)
    ensures
        v.deep_view() == default_entries(),
{
    let mut v: Vec<WatchItem> = Vec::new();
    v.push(WatchItem::new("000001.SH", "上证指数", Market::Cn));
    v.push(WatchItem::new("399001.SZ", "深证成指", Market::Cn));
    v.push(WatchItem::new("600519.SH", "贵州茅台", Market::Cn));
    v.push(WatchItem::new("00700.HK", "腾讯控股", Market::Hk));
    v.push(WatchItem::new("09988.HK", "阿里巴巴-W", Market::Hk));
    assert(v.deep_view() == default_entries());
    v
}

/// The display form of a symbol given by an administrator: trimmed and
/// ASCII upper-cased, it must be `CODE.SH`, `CODE.SZ` or `CODE.HK` with a
/// non-empty code of decimal digits.
pub open spec fn display_symbol_of(symbol: Seq<char>) -> Option<Seq<char>> {
    let t = upper_seq(trim(symbol));
    let i = index_of(t, '.');
    let market = t.subrange(i + 1, t.len() as int);
    if 0 < i < t.len() && (forall|j: int| 0 <= j < i ==> is_digit(#[trigger] t[j])) && (market
        == "SH"@ || market == "SZ"@ || market == "HK"@) {
        Some(t)
    } else {
        None
    }
}

/// The message for a symbol that is not in display form.
pub open spec fn invalid_symbol_text(symbol: Seq<char>) -> Seq<char> {
    "invalid symbol `"@ + trim(symbol) + "`: expected CODE.SH, CODE.SZ or CODE.HK"@
}

/// The display form of `symbol` (see `display_symbol_of`), or the message
/// for a symbol that is not in that form.
pub fn normalize_display_symbol(symbol: &str) -> (r: Result<String, String>)
    ensures
        match (r, display_symbol_of(symbol@)) {
            (Ok(s), Some(t)) => s@ == t,
            (Err(m), None) => m@ == invalid_symbol_text(symbol@),
            _ => false,
        },
{
    let v = chars_of(symbol);
    assert(v@.subrange(0, v@.len() as int) == v@);
    let (a, b) = trim_range(&v, 0, v.len());
    let t = upper_range(&v, a, b);
    let n = t.len();
    let i = find_char(&t, 0, n, '.');
    assert(t@.subrange(0, n as int) == t@);
    let mut ok = 0 < i && i < n;
    let mut j: usize = 0;
    while ok && j < i
        invariant
            i <= n == t.len(),
            j <= i,
            ok ==> forall|k: int| 0 <= k < j ==> is_digit(#[trigger] t@[k]),
            ok ==> 0 < i < n,
            !ok ==> !(0 < i < n && (forall|k: int| 0 <= k < i ==> is_digit(#[trigger] t@[k]))),
        decreases i - j,
    {
        if !('0' <= t[j] && t[j] <= '9') {
            ok = false;
        }
        j = j + 1;
    }
    if ok {
        let sh = chars_of("SH");
        let sz = chars_of("SZ");
        let hk = chars_of("HK");
        if range_equals(&t, i + 1, n, &sh) || range_equals(&t, i + 1, n, &sz) || range_equals(&t, i + 1, n, &hk) {
            let s = string_of(&t, 0, n);
            return Ok(s);
        }
    }
    let mut msg = "invalid symbol `".to_owned();
    append_chars(&mut msg, &v, a, b);
    msg.append("`: expected CODE.SH, CODE.SZ or CODE.HK");
    Err(msg)
}

/// The name an administrator's entry is shown with: the trimmed name when it
/// is given and not blank, the symbol otherwise.
pub open spec fn display_name_of(symbol: Seq<char>, name: Option<Seq<char>>) -> Seq<char> {
    match name {
        Some(n) => if trim(n).len() > 0 { trim(n) } else { symbol },
        None => symbol,
    }
}

/// The model of an optional string.
pub open spec fn opt_view(s: Option<&str>) -> Option<Seq<char>> {
    match s {
        Some(t) => Some(t@),
        None => None,
    }
}

impl WatchItem {
    /// The watch item an administrator asks for: the symbol in display form,
    /// the given or derived name, and the market inferred from the symbol.
    pub fn from_input(symbol: &str, name: Option<&str>) -> (r: Result<WatchItem, String>)
        ensures
            match (r, display_symbol_of(symbol@)) {
                (Ok(w), Some(t)) => w@ == entry_of(t, display_name_of(t, opt_view(name)), market_of(t)),
                (Err(m), None) => m@ == invalid_symbol_text(symbol@),
                _ => false,
            },
    {
        let symbol = match normalize_display_symbol(symbol) {
            Ok(s) => s,
            Err(m) => return Err(m),
        };
        let shown = match name {
            Some(n) => {
                let v = chars_of(n);
                assert(v@.subrange(0, v@.len() as int) == v@);
                let (a, b) = trim_range(&v, 0, v.len());
                if a < b {
                    string_of(&v, a, b)
                } else {
                    symbol.clone()
                }
            },
            None => symbol.clone(),
        };
        let market = Market::infer(symbol.as_str());
        Ok(WatchItem::new(symbol.as_str(), shown.as_str(), market))
    }
}

/// A `u64` setting read from the environment: the default when it is unset
/// or blank, otherwise its value read as a `u64` (untrimmed), or the message
/// `invalid <name>: <reason>`.
pub open spec fn u64_setting(name: Seq<char>, raw: Option<Seq<char>>, default: u64) -> Result<int, Seq<char>> {
    match raw {
        None => Ok(default as int),
        Some(v) => if trim(v).len() == 0 {
            Ok(default as int)
        } else {
            match u64_of(v) {
                Ok(n) => Ok(n),
                Err(k) => Err("invalid "@ + name + ": "@ + int_error_text(k)),
            }
        },
    }
}

/// Reads a `u64` setting (see `u64_setting`).
pub fn read_u64_setting(name: &str, raw: Option<&str>, default: u64) -> (r: Result<u64, String>)
    ensures
        match (r, u64_setting(name@, opt_view(raw), default)) {
            (Ok(n), Ok(m)) => n == m,
            (Err(e), Err(e2)) => e@ == e2,
            _ => false,
        },
{
    match raw {
        None => Ok(default),
        Some(text) => {
            let v = chars_of(text);
            assert(v@.subrange(0, v@.len() as int) == v@);
            let (a, b) = trim_range(&v, 0, v.len());
            if a == b {
                return Ok(default);
            }
            match parse_u64(&v) {
                Ok(n) => Ok(n),
                Err(kind) => {
                    let mut msg = "invalid ".to_owned();
                    msg.append(name);
                    msg.append(": ");
                    msg.append(int_error_message(kind));
                    Err(msg)
                },
            }
        },
    }
}

/// The device token: the trimmed value when it is set and not blank.
pub open spec fn token_setting(raw: Option<Seq<char>>) -> Option<Seq<char>> {
    match raw {
        Some(v) => if trim(v).len() > 0 { Some(trim(v)) } else { None },
        None => None,
    }
}

/// The model of an optional string.
pub open spec fn opt_string_view(s: Option<String>) -> Option<Seq<char>> {
    match s {
        Some(t) => Some(t@),
        None => None,
    }
}

/// Reads the device token (see `token_setting`).
pub fn read_token_setting(raw: Option<&str>) -> (r: Option<String>)
    ensures
        opt_string_view(r) == token_setting(opt_view(raw)),
{
    match raw {
        None => None,
        Some(text) => {
            let v = chars_of(text);
            assert(v@.subrange(0, v@.len() as int) == v@);
            let (a, b) = trim_range(&v, 0, v.len());
            if a < b {
                Some(string_of(&v, a, b))
            } else {
                None
            }
        },
    }
}

/// The watchlist setting: the parsed `WATCHLIST` value (blank when unset),
/// or the built-in list when that names no symbol.
pub open spec fn watchlist_setting(raw: Option<Seq<char>>) -> Result<Seq<WatchEntry>, Seq<char>> {
    let value = match raw {
        Some(v) => v,
        None => Seq::<char>::empty(),
    };
    match watchlist_of(value) {
        Ok(items) => if items.len() == 0 { Ok(default_entries()) } else { Ok(items) },
        Err(e) => Err(e),
    }
}

/// The provider setting: `QUOTE_PROVIDER`, `mock` when unset.
pub open spec fn provider_setting(raw: Option<Seq<char>>) -> Result<QuoteProviderKind, Seq<char>> {
    match raw {
        Some(v) => provider_from_name(v),
        None => provider_from_name("mock"@),
    }
}

/// The settings that the relay takes from its environment, apart from
/// addresses and paths.
pub struct Settings {
    pub provider: QuoteProviderKind,
    pub watchlist: Vec<WatchItem>,
    pub stale_after_secs: u64,
    pub mock_interval_ms: u64,
    pub device_token: Option<String>,
}

/// The model of the settings.
pub struct SettingsModel {
    pub provider: QuoteProviderKind,
    pub watchlist: Seq<WatchEntry>,
    pub stale_after_secs: int,
    pub mock_interval_ms: int,
    pub device_token: Option<Seq<char>>,
}

/// The settings for the raw values of `QUOTE_PROVIDER`, `STALE_AFTER_SECS`
/// (default 20), `MOCK_INTERVAL_MS` (default 3000), `WATCHLIST` and
/// `DEVICE_TOKEN`, or the message of the first of them, in that order, that
/// is invalid.
pub open spec fn settings_of(
    provider: Option<Seq<char>>,
    stale_after: Option<Seq<char>>,
    mock_interval: Option<Seq<char>>,
    watchlist: Option<Seq<char>>,
    device_token: Option<Seq<char>>,
) -> Result<SettingsModel, Seq<char>> {
    match provider_setting(provider) {
        Err(e) => Err(e),
        Ok(p) => match u64_setting("STALE_AFTER_SECS"@, stale_after, 20) {
            Err(e) => Err(e),
            Ok(stale) => match u64_setting("MOCK_INTERVAL_MS"@, mock_interval, 3000) {
                Err(e) => Err(e),
                Ok(mock) => match watchlist_setting(watchlist) {
                    Err(e) => Err(e),
                    Ok(items) => Ok(
                        SettingsModel {
                            provider: p,
                            watchlist: items,
                            stale_after_secs: stale,
                            mock_interval_ms: mock,
                            device_token: token_setting(device_token),
                        },
                    ),
                },
            },
        },
    }
}

impl Settings {
    /// The model of the settings.
    pub open spec fn model(&self) -> SettingsModel {
        SettingsModel {
            provider: self.provider,
            watchlist: self.watchlist.deep_view(),
            stale_after_secs: self.stale_after_secs as int,
            mock_interval_ms: self.mock_interval_ms as int,
            device_token: opt_string_view(self.device_token),
        }
    }

    /// Resolves the settings from the raw environment values (see
    /// `settings_of`).
    pub fn resolve(
        provider: Option<&str>,
        stale_after: Option<&str>,
        mock_interval: Option<&str>,
        watchlist: Option<&str>,
        device_token: Option<&str>,
    ) -> (r: Result<Settings, String>)
        ensures
            match (
                r,
                settings_of(
                    opt_view(provider),
                    opt_view(stale_after),
                    opt_view(mock_interval),
                    opt_view(watchlist),
                    opt_view(device_token),
                ),
            ) {
                (Ok(s), Ok(m)) => s.model() == m,
                (Err(e), Err(e2)) => e@ == e2,
                _ => false,
            },
    {
        let kind = match provider {
            Some(p) => QuoteProviderKind::parse(p),
            None => QuoteProviderKind::parse("mock"),
        };
        let kind = match kind {
            Ok(k) => k,
            Err(e) => return Err(e),
        };
        let stale = match read_u64_setting("STALE_AFTER_SECS", stale_after, 20) {
            Ok(n) => n,
            Err(e) => return Err(e),
        };
        let mock = match read_u64_setting("MOCK_INTERVAL_MS", mock_interval, 3000) {
            Ok(n) => n,
            Err(e) => return Err(e),
        };
        let parsed = match watchlist {
            Some(w) => parse_watchlist(w),
            None => parse_watchlist(""),
        };
        proof {
            if watchlist is None {
                reveal_strlit("");
            }
        }
        let items = match parsed {
            Ok(items) => items,
            Err(e) => return Err(e),
        };
        let items = if items.len() == 0 {
            default_watchlist()
        } else {
            items
        };
        let token = read_token_setting(device_token);
        Ok(Settings {
            provider: kind,
            watchlist: items,
            stale_after_secs: stale,
            mock_interval_ms: mock,
            device_token: token,
        })
    }
}

/// The listing of a watch entry.
pub open spec fn listing_of(e: WatchEntry) -> Listing {
    Listing { symbol: e.symbol, name: e.name, market: e.market }
}

impl WatchlistItem {
    /// The listing of a watch item: its display symbol, name and market.
    pub fn from_item(item: &WatchItem) -> (r: WatchlistItem)
        ensures
            r@ == listing_of(item@),
    {
        WatchlistItem { symbol: item.symbol.clone(), name: item.name.clone(), market: item.market }
    }
}

/// Every provider kind reads back from its configuration name.
pub proof fn law_provider_name_round_trip(kind: QuoteProviderKind)
    ensures
        provider_from_name(provider_name(kind)) == Ok::<QuoteProviderKind, Seq<char>>(kind),
{
    reveal_strlit("mock");
    reveal_strlit("longbridge");
    assert(lower_seq("mock"@) == "mock"@);
    assert(lower_seq("longbridge"@) == "longbridge"@);
}

/// Without `WATCHLIST` (or with a blank one) the built-in list is watched.
pub proof fn law_missing_watchlist_uses_defaults()
    ensures
        watchlist_setting(None) == Ok::<Seq<WatchEntry>, Seq<char>>(default_entries()),
        watchlist_setting(Some(Seq::<char>::empty())) == Ok::<Seq<WatchEntry>, Seq<char>>(default_entries()),
{
    let e = Seq::<char>::empty();
    assert(split(e, ',') == seq![e]);
    assert(seq![e].drop_last() == Seq::<Seq<char>>::empty());
    assert(trim_start(e) == e);
    assert(trim_end(e) == e);
    assert(trim(e) == e);
    assert(seq![e].last() == e);
    assert(parse_entries(Seq::<Seq<char>>::empty()) == Ok::<Seq<WatchEntry>, Seq<char>>(Seq::empty()));
    assert(parse_entries(seq![e]) == Ok::<Seq<WatchEntry>, Seq<char>>(Seq::empty()));
}

/// ASCII upper-casing is idempotent.
proof fn lemma_upper_idempotent(s: Seq<char>)
    ensures
        upper_seq(upper_seq(s)) == upper_seq(s),
{
    assert forall|j: int| 0 <= j < s.len() implies crate::text::upper(crate::text::upper(#[trigger] s[j]))
        == crate::text::upper(s[j]) by {
        let c = s[j];
        if 'a' <= c && c <= 'z' {
            let d = ((c as u32) - 32) as char;
            assert(d as u32 == (c as u32) - 32);
        }
    }
    assert(upper_seq(upper_seq(s)) =~= upper_seq(s));
}

/// A symbol in display form is already in display form.
pub proof fn law_display_symbol_is_stable(symbol: Seq<char>)
    ensures
        display_symbol_of(symbol) matches Some(t) ==> display_symbol_of(t) == Some(t),
{
    if let Some(t) = display_symbol_of(symbol) {
        let i = index_of(t, '.');
        assert(crate::number::is_digit(t[0]));
        assert(!crate::text::is_ws(t[0]));
        assert(trim_start(t) == t);
        let m = t.subrange(i + 1, t.len() as int);
        reveal_strlit("SH");
        reveal_strlit("SZ");
        reveal_strlit("HK");
        assert(m.len() == 2);
        assert(t.last() == m[1]);
        assert(!crate::text::is_ws(t.last()));
        assert(trim_end(t) == t);
        assert(trim(t) == t);
        lemma_upper_idempotent(trim(symbol));
        assert(upper_seq(t) == t);
    }
}

/// What `index_of` finds.
proof fn lemma_index_of_facts(s: Seq<char>, c: char)
    ensures
        0 <= index_of(s, c) <= s.len(),
        forall|j: int| 0 <= j < index_of(s, c) ==> s[j] != c,
        index_of(s, c) < s.len() ==> s[index_of(s, c)] == c,
    decreases s.len(),
{
    if s.len() > 0 && s[0] != c {
        let t = s.drop_first();
        lemma_index_of_facts(t, c);
        assert forall|j: int| 0 <= j < index_of(s, c) implies s[j] != c by {
            if j > 0 {
                assert(s[j] == t[j - 1]);
            }
        }
    }
}

/// `strip_zeros` leaves a suffix that does not start with `0`.
proof fn lemma_strip_zeros_facts(s: Seq<char>)
    ensures
        strip_zeros(s).len() <= s.len(),
        strip_zeros(s) == s.subrange(s.len() - strip_zeros(s).len(), s.len() as int),
        strip_zeros(s).len() > 0 ==> strip_zeros(s)[0] != '0',
    decreases s.len(),
{
    if s.len() > 0 && s[0] == '0' {
        let t = s.drop_first();
        lemma_strip_zeros_facts(t);
        assert(t.subrange(t.len() - strip_zeros(t).len(), t.len() as int) == s.subrange(
            s.len() - strip_zeros(t).len(),
            s.len() as int,
        ));
    } else {
        assert(s.subrange(0, s.len() as int) == s);
    }
}

/// ASCII lower-casing undoes ASCII upper-casing up to case.
proof fn lemma_lower_upper(s: Seq<char>)
    ensures
        lower_seq(upper_seq(s)) == lower_seq(s),
{
    assert forall|j: int| 0 <= j < s.len() implies crate::text::lower(crate::text::upper(#[trigger] s[j]))
        == crate::text::lower(s[j]) by {
        let c = s[j];
        if 'a' <= c && c <= 'z' {
            let d = ((c as u32) - 32) as char;
            assert(d as u32 == (c as u32) - 32);
            let e = ((d as u32) + 32) as char;
            assert(e as u32 == c as u32);
        }
    }
    assert(lower_seq(upper_seq(s)) =~= lower_seq(s));
}

/// A provider symbol is its own provider symbol.
pub proof fn law_provider_symbol_is_stable(symbol: Seq<char>)
    ensures
        provider_symbol_of(provider_symbol_of(symbol)) == provider_symbol_of(symbol),
{
    lemma_index_of_facts(symbol, '.');
    let i = index_of(symbol, '.');
    if i < symbol.len() {
        let code = symbol.subrange(0, i);
        let market = symbol.subrange(i + 1, symbol.len() as int);
        let hk = eq_ignore_case(market, "HK"@);
        lemma_strip_zeros_facts(code);
        let shown = if hk {
            if strip_zeros(code).len() == 0 {
                seq!['0']
            } else {
                strip_zeros(code)
            }
        } else {
            code
        };
        assert forall|j: int| 0 <= j < shown.len() implies shown[j] != '.' by {
            if hk && strip_zeros(code).len() > 0 {
                assert(shown[j] == code[code.len() - shown.len() + j]);
            }
        }
        let up = upper_seq(market);
        let r = shown + seq!['.'] + up;
        assert(r == provider_symbol_of(symbol));
        assert forall|j: int| 0 <= j < shown.len() implies r[j] != '.' by {
            assert(r[j] == shown[j]);
        }
        assert(r[shown.len() as int] == '.');
        crate::text::lemma_index_of(r, '.', shown.len() as int);
        assert(r.subrange(0, shown.len() as int) == shown);
        assert(r.subrange(shown.len() as int + 1, r.len() as int) == up);
        lemma_lower_upper(market);
        lemma_upper_idempotent(market);
        if hk {
            if strip_zeros(code).len() == 0 {
                assert(shown.drop_first() == Seq::<char>::empty());
                assert(strip_zeros(shown.drop_first()) == Seq::<char>::empty());
                assert(strip_zeros(shown) == Seq::<char>::empty());
            } else {
                assert(strip_zeros(shown) == shown);
            }
        }
    }
}

/// When `t` starts with `.`, whether `a + t` ends with `.HK` depends on `t`
/// alone: it does exactly when `t` has three or more characters and ends
/// with `.HK`.
proof fn lemma_hk_suffix_of_tail(a: Seq<char>, t: Seq<char>)
    requires
        t.len() >= 1,
        t[0] == '.',
    ensures
        ends_with(a + t, hk_suffix()) == (t.len() >= 3 && ends_with(t, hk_suffix())),
{
    let s = a + t;
    if t.len() >= 3 {
        assert(s.subrange(s.len() - 3, s.len() as int) == t.subrange(t.len() - 3, t.len() as int));
    } else if s.len() >= 3 {
        if t.len() == 2 {
            assert(s.subrange(s.len() - 3, s.len() as int)[1] == t[0]);
        } else {
            assert(s.subrange(s.len() - 3, s.len() as int)[2] == t[0]);
        }
    }
}

/// Normalising a symbol for the provider keeps the market inferred from it.
pub proof fn law_provider_symbol_keeps_market(symbol: Seq<char>)
    ensures
        market_of(provider_symbol_of(symbol)) == market_of(symbol),
{
    lemma_index_of_facts(symbol, '.');
    let i = index_of(symbol, '.');
    if i < symbol.len() {
        let code = symbol.subrange(0, i);
        let market = symbol.subrange(i + 1, symbol.len() as int);
        let r = provider_symbol_of(symbol);
        let up = upper_seq(market);
        let tail = seq!['.'] + up;
        let shown = r.subrange(0, r.len() - tail.len());
        assert(symbol == code + seq!['.'] + market);
        assert(upper_seq(symbol) == upper_seq(code) + tail);
        lemma_upper_idempotent(market);
        assert(r == shown + tail);
        assert(upper_seq(r) == upper_seq(shown) + tail);
        lemma_hk_suffix_of_tail(upper_seq(code), tail);
        lemma_hk_suffix_of_tail(upper_seq(shown), tail);
    }
}

/// For a symbol `code.market` (the code without `.`), the provider symbol
/// is the code, `.`, and the upper-cased market; only for the Hong Kong
/// market (`HK` in any case) the code loses its leading zeros, keeping `0`
/// for an all-zero code.  A symbol without `.` is its own provider symbol.
pub proof fn law_provider_symbol_parts(code: Seq<char>, market: Seq<char>, plain: Seq<char>)
    requires
        forall|j: int| 0 <= j < code.len() ==> code[j] != '.',
    ensures
        !eq_ignore_case(market, "HK"@) ==> provider_symbol_of(code + seq!['.'] + market) == code
            + seq!['.'] + upper_seq(market),
        eq_ignore_case(market, "HK"@) && strip_zeros(code).len() > 0 ==> provider_symbol_of(
            code + seq!['.'] + market,
        ) == strip_zeros(code) + seq!['.'] + upper_seq(market),
        eq_ignore_case(market, "HK"@) && strip_zeros(code).len() == 0 ==> provider_symbol_of(
            code + seq!['.'] + market,
        ) == seq!['0'] + seq!['.'] + upper_seq(market),
        (forall|j: int| 0 <= j < plain.len() ==> plain[j] != '.') ==> provider_symbol_of(plain)
            == plain,
{
    let s = code + seq!['.'] + market;
    assert forall|j: int| 0 <= j < code.len() implies s[j] != '.' by {
        assert(s[j] == code[j]);
    }
    assert(s[code.len() as int] == '.');
    crate::text::lemma_index_of(s, '.', code.len() as int);
    assert(s.subrange(0, code.len() as int) == code);
    assert(s.subrange(code.len() as int + 1, s.len() as int) == market);
    if forall|j: int| 0 <= j < plain.len() ==> plain[j] != '.' {
        crate::text::lemma_index_of(plain, '.', plain.len() as int);
    }
}

/// Every parsed entry: its provider symbol and market are those of its
/// display symbol, and neither its symbol nor its name is empty.
proof fn lemma_parsed_entries_consistent(entries: Seq<Seq<char>>)
    ensures
        parse_entries(entries) matches Ok(items) ==> forall|i: int| 0 <= i < items.len() ==> {
            &&& (#[trigger] items[i]).provider_symbol == provider_symbol_of(items[i].symbol)
            &&& items[i].market == market_of(items[i].symbol)
            &&& items[i].symbol.len() > 0
            &&& items[i].name.len() > 0
        },
    decreases entries.len(),
{
    if entries.len() > 0 {
        lemma_parsed_entries_consistent(entries.drop_last());
    }
}

/// Every watch item read from `WATCHLIST` has the provider symbol and
/// market derived from its display symbol, and a non-empty symbol and name.
pub proof fn law_parsed_items_are_consistent(value: Seq<char>)
    ensures
        watchlist_of(value) matches Ok(items) ==> forall|i: int| 0 <= i < items.len() ==> {
            &&& (#[trigger] items[i]).provider_symbol == provider_symbol_of(items[i].symbol)
            &&& items[i].market == market_of(items[i].symbol)
            &&& items[i].symbol.len() > 0
            &&& items[i].name.len() > 0
        },
{
    lemma_parsed_entries_consistent(split(value, ','));
}

/// A provider name is accepted exactly when, lower-cased, it names a
/// provider kind, and then it gives that kind.
pub proof fn law_provider_name_accepted(value: Seq<char>, kind: QuoteProviderKind)
    ensures
        provider_from_name(value) == Ok::<QuoteProviderKind, Seq<char>>(kind) <==> lower_seq(value)
            == provider_name(kind),
        lower_seq(value) != "mock"@ && lower_seq(value) != "longbridge"@ ==> provider_from_name(
            value,
        ) is Err,
{
    reveal_strlit("mock");
    reveal_strlit("longbridge");
    assert("mock"@ != "longbridge"@) by {
        assert("mock"@.len() != "longbridge"@.len());
    }
}

/// Unset or blank numeric settings take their default, and a decimal
/// number is read as itself.
pub proof fn law_u64_setting_values(name: Seq<char>, blank: Seq<char>, n: u64, default: u64)
    requires
        forall|j: int| 0 <= j < blank.len() ==> crate::text::is_ws(#[trigger] blank[j]),
    ensures
        u64_setting(name, None, default) == Ok::<int, Seq<char>>(default as int),
        u64_setting(name, Some(blank), default) == Ok::<int, Seq<char>>(default as int),
        u64_setting(name, Some(crate::stream::decimal_of(n as nat)), default) == Ok::<int, Seq<char>>(
            n as int,
        ),
{
    lemma_blank_trims_away(blank);
    let d = crate::stream::decimal_of(n as nat);
    crate::stream::lemma_decimal_reads_back(n as nat);
    crate::stream::law_decimal_round_trip(n);
    assert(crate::number::is_digit(d[0]));
    assert(trim_start(d) == d);
    assert(crate::number::is_digit(d[d.len() - 1]));
    assert(trim_end(d) == d);
}

/// Whitespace trims away to nothing.
proof fn lemma_blank_trims_away(blank: Seq<char>)
    requires
        forall|j: int| 0 <= j < blank.len() ==> crate::text::is_ws(#[trigger] blank[j]),
    ensures
        trim(blank).len() == 0,
    decreases blank.len(),
{
    if blank.len() > 0 {
        let t = blank.drop_first();
        assert forall|j: int| 0 <= j < t.len() implies crate::text::is_ws(#[trigger] t[j]) by {
            assert(t[j] == blank[j + 1]);
        }
        lemma_blank_trims_away(t);
        assert(trim_start(blank) == trim_start(t));
    }
}

} // verus!
