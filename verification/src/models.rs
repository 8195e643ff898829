//! Quote and watchlist data model shared by the store, the providers and
//! the server.

use vstd::prelude::*;
use crate::text::{chars_of, ends_with, eq_ignore_case, eq_ignore_case_at, upper_range, upper_seq};

verus! {

/// The exchange group a symbol trades on.
#[derive(Debug, Clone, Copy, PartialEq, Eq, Structural)]
pub enum Market {
    Cn,
    Hk,
}

/// `.HK`, the suffix of Hong Kong symbols.
pub open spec fn hk_suffix() -> Seq<char> {
    seq!['.', 'H', 'K']
}

/// The market of `symbol`: Hong Kong exactly when its ASCII upper-cased
/// form ends with `.HK`, mainland China otherwise.
pub open spec fn market_of(symbol: Seq<char>) -> Market {
    if ends_with(upper_seq(symbol), hk_suffix()) {
        Market::Hk
    } else {
        Market::Cn
    }
}

impl Market {
    /// Infers the market from a display symbol such as `00700.HK`.
    pub fn infer(symbol: &str) -> (m: Market)
        ensures
            m == market_of(symbol@),
    {
        let v = chars_of(symbol);
        let up = upper_range(&v, 0, v.len());
        assert(v@.subrange(0, v@.len() as int) == v@);
        let n = up.len();
        if n >= 3 && up[n - 3] == '.' && up[n - 2] == 'H' && up[n - 1] == 'K' {
            assert(up@.subrange(n - 3, n as int) == hk_suffix());
            Market::Hk
        } else {
            assert(!ends_with(up@, hk_suffix())) by {
                if n >= 3 {
                    assert(up@.subrange(n - 3, n as int)[0] == up@[n - 3]);
                    assert(up@.subrange(n - 3, n as int)[1] == up@[n - 2]);
                    assert(up@.subrange(n - 3, n as int)[2] == up@[n - 1]);
                }
            }
            Market::Cn
        }
    }
}

/// What a device shows for a quote.
#[derive(Debug, Clone, Copy, PartialEq, Eq, Structural)]
pub enum QuoteStatus {
    Normal,
    Stale,
    Offline,
    MarketClosed,
    Suspended,
}

/// An instant, as seconds and nanoseconds since the Unix epoch.
#[derive(Debug, Clone, Copy, PartialEq, Eq, Structural)]
pub struct Timestamp {
    pub secs: i64,
    pub nanos: u32,
}

impl Timestamp {
    /// Nanoseconds since the Unix epoch.
    pub open spec fn total_nanos(self) -> int {
        self.secs * 1_000_000_000 + self.nanos
    }

    /// `total_nanos`, computed.
    pub fn as_nanos(&self) -> (n: i128)
        ensures
            n == self.total_nanos(),
    {
        let s: i128 = self.secs as i128;
        assert(-0x8000_0000_0000_0000 <= s < 0x8000_0000_0000_0000);
        assert(s * 1_000_000_000 < 0x1_0000_0000_0000_0000_0000_0000_0000) by (nonlinear_arith)
            requires
                s < 0x8000_0000_0000_0000,
        ;
        assert(s * 1_000_000_000 > -0x1_0000_0000_0000_0000_0000_0000_0000) by (nonlinear_arith)
            requires
                s >= -0x8000_0000_0000_0000,
        ;
        s * 1_000_000_000 + self.nanos as i128
    }
}

/// A quote for one watched symbol.  `P` holds the price figures (last,
/// change, open, high, low, previous close, turnover), which the relay only
/// carries from the provider to the devices.
#[derive(Debug)]
pub struct Quote<P> {
    pub symbol: String,
    pub name: String,
    pub market: Market,
    pub prices: P,
    pub volume: u64,
    pub trade_status: String,
    pub status: QuoteStatus,
    pub quote_ts: Timestamp,
    pub server_ts: Timestamp,
    pub stale: bool,
    pub stale_after_ms: u64,
}

/// The status a quote is shown with: `Stale` when it is stale; otherwise a
/// `Normal` quote whose trade status reads `suspended` or `market_closed`
/// (in any ASCII case) is shown as `Suspended` or `MarketClosed`; any other
/// status is shown as it is.
pub open spec fn shown_status<P>(q: Quote<P>) -> QuoteStatus {
    if q.stale {
        QuoteStatus::Stale
    } else {
        match q.status {
            QuoteStatus::Normal => {
                if eq_ignore_case(q.trade_status@, "suspended"@) {
                    QuoteStatus::Suspended
                } else if eq_ignore_case(q.trade_status@, "market_closed"@) {
                    QuoteStatus::MarketClosed
                } else {
                    QuoteStatus::Normal
                }
            },
            other => other,
        }
    }
}

/// Whether the quote was received by the server more than `stale_after_ns`
/// nanoseconds before `now`.
pub open spec fn is_aged<P>(q: Quote<P>, now: Timestamp, stale_after_ns: u128) -> bool {
    now.total_nanos() - q.server_ts.total_nanos() > stale_after_ns
}

/// `q` as seen at `now`: stale once it is older than the window (and stale
/// for good once marked), with its status recomputed.
pub open spec fn freshened<P>(q: Quote<P>, now: Timestamp, stale_after_ns: u128) -> Quote<P> {
    let marked = Quote { stale: q.stale || is_aged(q, now, stale_after_ns), ..q };
    Quote { status: shown_status(marked), ..marked }
}

impl<P: Copy> Clone for Quote<P> {
    fn clone(&self) -> (r: Self)
        ensures
            r == *self,
    {
        Quote {
            symbol: self.symbol.clone(),
            name: self.name.clone(),
            market: self.market,
            prices: self.prices,
            volume: self.volume,
            trade_status: self.trade_status.clone(),
            status: self.status,
            quote_ts: self.quote_ts,
            server_ts: self.server_ts,
            stale: self.stale,
            stale_after_ms: self.stale_after_ms,
        }
    }
}

impl<P> Quote<P> {
    /// The status the quote is shown with (see `shown_status`).
    pub fn status(&self) -> (s: QuoteStatus)
        ensures
            s == shown_status(*self),
    {
        if self.stale {
            return QuoteStatus::Stale;
        }
        match self.status {
            QuoteStatus::Normal => {
                let t = chars_of(self.trade_status.as_str());
                let suspended = chars_of("suspended");
                let closed = chars_of("market_closed");
                assert(t@.subrange(0, t@.len() as int) == t@);
                if eq_ignore_case_at(&t, 0, t.len(), &suspended) {
                    QuoteStatus::Suspended
                } else if eq_ignore_case_at(&t, 0, t.len(), &closed) {
                    QuoteStatus::MarketClosed
                } else {
                    QuoteStatus::Normal
                }
            },
            other => other,
        }
    }

    /// The quote as seen at `now` with a staleness window of
    /// `stale_after_ns` nanoseconds.
    pub fn with_freshness(self, now: Timestamp, stale_after_ns: u128) -> (q: Self)
        ensures
            q == freshened(self, now, stale_after_ns),
    {
        let age: i128 = now.as_nanos() - self.server_ts.as_nanos();
        let aged = age > 0 && (age as u128) > stale_after_ns;
        let mut q = self;
        q.stale = q.stale || aged;
        let status = q.status();
        q.status = status;
        q
    }
}

/// The model of a watchlist listing.
pub struct Listing {
    pub symbol: Seq<char>,
    pub name: Seq<char>,
    pub market: Market,
}

/// A watchlist entry as devices and the admin UI see it.
#[derive(Debug, PartialEq, Eq)]
pub struct WatchlistItem {
    pub symbol: String,
    pub name: String,
    pub market: Market,
}

impl View for WatchlistItem {
    type V = Listing;

    open spec fn view(&self) -> Listing {
        Listing { symbol: self.symbol@, name: self.name@, market: self.market }
    }
}

impl DeepView for WatchlistItem {
    type V = Listing;

    open spec fn deep_view(&self) -> Listing {
        self@
    }
}

impl Clone for WatchlistItem {
    fn clone(&self) -> (r: Self)
        ensures
            r == *self,
    {
        WatchlistItem { symbol: self.symbol.clone(), name: self.name.clone(), market: self.market }
    }
}

/// The watchlist as served to devices and the admin UI.
#[derive(Debug, Clone, PartialEq, Eq)]
pub struct WatchlistResponse {
    pub items: Vec<WatchlistItem>,
}

/// An administrator's request to add or rename a watched symbol.
#[derive(Debug, Clone, PartialEq, Eq)]
pub struct UpsertWatchItemRequest {
    pub symbol: String,
    pub name: Option<String>,
}

/// The answer to a deletion: whether the symbol was watched, and the
/// watchlist afterwards.
#[derive(Debug, Clone, PartialEq, Eq)]
pub struct DeleteWatchItemResponse {
    pub deleted: bool,
    pub items: Vec<WatchlistItem>,
}

/// A request a device sends over the quote stream.
#[derive(Debug, Clone, PartialEq, Eq)]
pub enum StreamRequest {
    DetailRequest { request_id: u64, symbol: String },
}

/// The health report of the relay.
#[derive(Debug, Clone, PartialEq, Eq)]
pub struct HealthResponse {
    pub status: String,
    pub provider: String,
    pub provider_status: String,
    pub quote_count: usize,
    pub last_quote_ts: Option<Timestamp>,
    pub server_ts: Timestamp,
}

/// Seeing a quote again at the same time changes nothing.
pub proof fn law_freshness_is_idempotent<P>(q: Quote<P>, now: Timestamp, stale_after_ns: u128)
    ensures
        freshened(freshened(q, now, stale_after_ns), now, stale_after_ns) == freshened(
            q,
            now,
            stale_after_ns,
        ),
{
}

/// A quote that is stale at some time is stale at every later time, and a
/// stale quote is shown as stale.
pub proof fn law_staleness_is_permanent<P>(q: Quote<P>, t1: Timestamp, t2: Timestamp, stale_after_ns: u128)
    requires
        t1.total_nanos() <= t2.total_nanos(),
    ensures
        freshened(q, t1, stale_after_ns).stale ==> freshened(q, t2, stale_after_ns).stale,
        freshened(q, t2, stale_after_ns).stale ==> freshened(q, t2, stale_after_ns).status
            == QuoteStatus::Stale,
        q.stale ==> freshened(q, t1, stale_after_ns).stale,
{
}

/// Whether something fetched at `fetched_at` may still be served at `now`
/// from a cache that keeps entries for `ttl_ns` nanoseconds.
pub open spec fn cache_is_fresh(fetched_at: Timestamp, now: Timestamp, ttl_ns: u128) -> bool {
    now.total_nanos() - fetched_at.total_nanos() < ttl_ns
}

/// Whether a cached entry fetched at `fetched_at` may be served at `now`.
pub fn cache_entry_is_fresh(fetched_at: Timestamp, now: Timestamp, ttl_ns: u128) -> (b: bool)
    ensures
        b == cache_is_fresh(fetched_at, now, ttl_ns),
{
    let age: i128 = now.as_nanos() - fetched_at.as_nanos();
    age < 0 || (age as u128) < ttl_ns
}

/// A quote that is not stale and whose status is not `Normal` is shown with
/// its own status, whatever its trade status text; only a `Normal` quote
/// is re-read from its trade status, and a stale one is shown as stale.
pub proof fn law_status_keeps_non_normal<P>(q: Quote<P>, now: Timestamp, stale_after_ns: u128)
    ensures
        !q.stale && q.status != QuoteStatus::Normal ==> shown_status(q) == q.status,
        q.stale ==> shown_status(q) == QuoteStatus::Stale,
        !q.stale && q.status == QuoteStatus::Normal ==> (shown_status(q) == QuoteStatus::Normal
            || shown_status(q) == QuoteStatus::Suspended || shown_status(q)
            == QuoteStatus::MarketClosed),
        !q.stale && !is_aged(q, now, stale_after_ns) && q.status != QuoteStatus::Normal ==> freshened(
            q,
            now,
            stale_after_ns,
        ).status == q.status,
        !q.stale && !is_aged(q, now, stale_after_ns) ==> !freshened(q, now, stale_after_ns).stale,
{
}

/// A symbol ending in `.HK` in any ASCII case is a Hong Kong symbol; one
/// ending in `.SH` or `.SZ` is a mainland one; and the market does not
/// depend on the case of the symbol.
pub proof fn law_market_from_suffix(prefix: Seq<char>, symbol: Seq<char>)
    ensures
        market_of(prefix + ".HK"@) == Market::Hk,
        market_of(prefix + ".hk"@) == Market::Hk,
        market_of(prefix + ".SH"@) == Market::Cn,
        market_of(prefix + ".SZ"@) == Market::Cn,
        market_of(upper_seq(symbol)) == market_of(symbol),
{
    reveal_strlit(".HK");
    reveal_strlit(".hk");
    reveal_strlit(".SH");
    reveal_strlit(".SZ");
    let a = upper_seq(prefix + ".HK"@);
    assert(a.subrange(a.len() - 3, a.len() as int) == hk_suffix());
    let b = upper_seq(prefix + ".hk"@);
    assert(b.subrange(b.len() - 3, b.len() as int) == hk_suffix());
    let c = upper_seq(prefix + ".SH"@);
    assert(c[c.len() - 1] == 'H');
    let d = upper_seq(prefix + ".SZ"@);
    assert(d[d.len() - 2] == 'S');
    if ends_with(c, hk_suffix()) {
        assert(c.subrange(c.len() - 3, c.len() as int)[2] == c[c.len() - 1]);
    }
    if ends_with(d, hk_suffix()) {
        assert(d.subrange(d.len() - 3, d.len() as int)[1] == d[d.len() - 2]);
    }
    assert forall|j: int| 0 <= j < symbol.len() implies crate::text::upper(crate::text::upper(
        #[trigger] symbol[j],
    )) == crate::text::upper(symbol[j]) by {
        let ch = symbol[j];
        if 'a' <= ch && ch <= 'z' {
            let u = ((ch as u32) - 32) as char;
            assert(u as u32 == (ch as u32) - 32);
        }
    }
    assert(upper_seq(upper_seq(symbol)) == upper_seq(symbol));
}

/// A quote is stale once it is older than the window, and not before: at
/// exactly the window's age it is still fresh, one nanosecond later stale.
pub proof fn law_stale_exactly_past_window<P>(q: Quote<P>, now: Timestamp, stale_after_ns: u128)
    requires
        !q.stale,
    ensures
        now.total_nanos() <= q.server_ts.total_nanos() + stale_after_ns ==> !freshened(q, now, stale_after_ns).stale,
        now.total_nanos() > q.server_ts.total_nanos() + stale_after_ns ==> freshened(q, now, stale_after_ns).stale,
{
}

/// A cached entry is served while it is younger than the time-to-live,
/// and not once it has reached it.
pub proof fn law_cache_fresh_below_ttl(fetched_at: Timestamp, now: Timestamp, ttl_ns: u128)
    ensures
        now.total_nanos() < fetched_at.total_nanos() + ttl_ns ==> cache_is_fresh(fetched_at, now, ttl_ns),
        now.total_nanos() >= fetched_at.total_nanos() + ttl_ns ==> !cache_is_fresh(fetched_at, now, ttl_ns),
{
}

/// A fresh `Normal` quote whose trade status reads `suspended` or
/// `market_closed` in any ASCII case is shown so; with any other trade
/// status it is shown as normal.
pub proof fn law_normal_status_follows_trade_status<P>(q: Quote<P>)
    requires
        !q.stale,
        q.status == QuoteStatus::Normal,
    ensures
        eq_ignore_case(q.trade_status@, "suspended"@) ==> shown_status(q) == QuoteStatus::Suspended,
        eq_ignore_case(q.trade_status@, "market_closed"@) ==> shown_status(q)
            == QuoteStatus::MarketClosed,
        !eq_ignore_case(q.trade_status@, "suspended"@) && !eq_ignore_case(
            q.trade_status@,
            "market_closed"@,
        ) ==> shown_status(q) == QuoteStatus::Normal,
{
    reveal_strlit("suspended");
    reveal_strlit("market_closed");
    if eq_ignore_case(q.trade_status@, "market_closed"@) {
        assert(crate::text::lower_seq(q.trade_status@).len() == "market_closed"@.len());
        assert(crate::text::lower_seq("suspended"@).len() == "suspended"@.len());
    }
}

} // verus!
