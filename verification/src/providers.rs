//! Quote providers: which symbols they serve and how their reports become
//! quotes.

use vstd::prelude::*;
use crate::clock::current_time;
use crate::config::{QuoteProviderKind, WatchEntry, WatchItem};
use crate::error::AppError;
use crate::models::{Quote, QuoteStatus, Timestamp, cache_entry_is_fresh, cache_is_fresh};
use crate::text::{chars_of, contains_at, contains_seq, lower_range, lower_seq};

verus! {

/// A provider of generated quotes for a watchlist.
#[derive(Debug)]
pub struct MockQuoteProvider {
    watchlist: Vec<WatchItem>,
}

impl MockQuoteProvider {
    /// A generator for `watchlist`.
    pub fn new(watchlist: Vec<WatchItem>) -> (p: Self)
        ensures
            p.watched() == watchlist.deep_view(),
    {
        MockQuoteProvider { watchlist }
    }

    /// The watchlist served.
    pub closed spec fn watched(&self) -> Seq<WatchEntry> {
        self.watchlist.deep_view()
    }

    /// The watchlist served.
    pub fn watchlist(&self) -> (w: &Vec<WatchItem>)
        ensures
            w.deep_view() == self.watched(),
    {
        &self.watchlist
    }
}

/// A provider of live Longbridge quotes for a watchlist.
#[derive(Debug)]
pub struct LongbridgeQuoteProvider {
    watchlist: Vec<WatchItem>,
}

impl LongbridgeQuoteProvider {
    /// A live provider for `watchlist`.
    pub fn new(watchlist: Vec<WatchItem>) -> (p: Self)
        ensures
            p.watched() == watchlist.deep_view(),
    {
        LongbridgeQuoteProvider { watchlist }
    }

    /// The watchlist served.
    pub closed spec fn watched(&self) -> Seq<WatchEntry> {
        self.watchlist.deep_view()
    }

    /// The watchlist served.
    pub fn watchlist(&self) -> (w: &Vec<WatchItem>)
        ensures
            w.deep_view() == self.watched(),
    {
        &self.watchlist
    }
}

/// The status of a quote whose provider reports the trade status `status`:
/// suspended when it mentions `halt` or `suspend`, market closed when it
/// mentions `close`, normal otherwise (in any ASCII case).
pub open spec fn status_of_trade(status: Seq<char>) -> QuoteStatus {
    let s = lower_seq(status);
    if contains_seq(s, "halt"@) || contains_seq(s, "suspend"@) {
        QuoteStatus::Suspended
    } else if contains_seq(s, "close"@) {
        QuoteStatus::MarketClosed
    } else {
        QuoteStatus::Normal
    }
}

/// The quote status for a provider's trade status (see `status_of_trade`).
pub fn quote_status_from_trade_status(status: &str) -> (s: QuoteStatus)
    ensures
        s == status_of_trade(status@),
{
    let v = chars_of(status);
    assert(v@.subrange(0, v@.len() as int) == v@);
    let low = lower_range(&v, 0, v.len());
    assert(low@.subrange(0, low@.len() as int) == low@);
    let halt = chars_of("halt");
    let suspend = chars_of("suspend");
    let close = chars_of("close");
    if contains_at(&low, 0, low.len(), &halt) || contains_at(&low, 0, low.len(), &suspend) {
        QuoteStatus::Suspended
    } else if contains_at(&low, 0, low.len(), &close) {
        QuoteStatus::MarketClosed
    } else {
        QuoteStatus::Normal
    }
}

/// The index of the first item served under `provider_symbol`, if any.
pub fn find_by_provider_symbol(watchlist: &Vec<WatchItem>, provider_symbol: &str) -> (r: Option<usize>)
    ensures
        match r {
            Some(i) => i < watchlist.len() && watchlist.deep_view()[i as int].provider_symbol == provider_symbol@
                && forall|j: int| 0 <= j < i ==> (#[trigger] watchlist.deep_view()[j]).provider_symbol != provider_symbol@,
            None => forall|j: int|
                0 <= j < watchlist.len() ==> (#[trigger] watchlist.deep_view()[j]).provider_symbol != provider_symbol@,
        },
{
    let mut i: usize = 0;
    while i < watchlist.len()
        invariant
            i <= watchlist.len(),
            forall|j: int| 0 <= j < i ==> (#[trigger] watchlist.deep_view()[j]).provider_symbol != provider_symbol@,
        decreases watchlist.len() - i,
    {
        assert(watchlist.deep_view()[i as int] == watchlist@[i as int]@);
        if crate::text::same_text(watchlist[i].provider_symbol.as_str(), provider_symbol) {
            return Some(i);
        }
        i = i + 1;
    }
    None
}

/// The volume of the `index`-th generated quote in round `sequence`.
pub open spec fn mock_volume(index: int, sequence: int) -> int {
    1_000_000 + sequence * 1_000 + index * 10_000
}

/// The generated quote for `item` (at position `index` of the watchlist) in
/// round `sequence`, carrying the generated `prices`: a normal, fresh quote
/// with the mock volume, quoted and received now.
pub fn mock_quote_frame<P>(item: &WatchItem, index: usize, sequence: u64, stale_after_ms: u64, prices: P) -> (q: Quote<P>)
    requires
        mock_volume(index as int, sequence as int) <= u64::MAX,
    ensures
        q.symbol@ == item.symbol@,
        q.name@ == item.name@,
        q.market == item.market,
        q.prices == prices,
        q.volume == mock_volume(index as int, sequence as int),
        q.trade_status@ == "normal"@,
        q.status == QuoteStatus::Normal,
        q.quote_ts == q.server_ts,
        !q.stale,
        q.stale_after_ms == stale_after_ms,
{
    let now = current_time();
    let index64: u64 = index as u64;
    Quote {
        symbol: item.symbol.clone(),
        name: item.name.clone(),
        market: item.market,
        prices,
        volume: 1_000_000 + sequence * 1_000 + index64 * 10_000,
        trade_status: "normal".to_owned(),
        status: QuoteStatus::Normal,
        quote_ts: now,
        server_ts: now,
        stale: false,
        stale_after_ms,
    }
}

/// The quote for `item` from a provider report: the reported prices, the
/// volume (negative volumes count as zero), the trade status and the status
/// it implies, quoted at `quote_ts`, received now, fresh.
pub fn provider_quote<P>(
    item: &WatchItem,
    prices: P,
    volume: i64,
    trade_status: String,
    quote_ts: Timestamp,
    stale_after_ms: u64,
) -> (q: Quote<P>)
    ensures
        q.symbol@ == item.symbol@,
        q.name@ == item.name@,
        q.market == item.market,
        q.prices == prices,
        q.volume == if volume < 0 { 0 } else { volume as int },
        q.trade_status@ == trade_status@,
        q.status == status_of_trade(trade_status@),
        q.quote_ts == quote_ts,
        !q.stale,
        q.stale_after_ms == stale_after_ms,
{
    let status = quote_status_from_trade_status(trade_status.as_str());
    let now = current_time();
    let volume: u64 = if volume < 0 {
        0
    } else {
        volume as u64
    };
    Quote {
        symbol: item.symbol.clone(),
        name: item.name.clone(),
        market: item.market,
        prices,
        volume,
        trade_status,
        status,
        quote_ts,
        server_ts: now,
        stale: false,
        stale_after_ms,
    }
}

/// What happens to a running provider.
#[derive(Debug, Clone, Copy, PartialEq, Eq, Structural)]
pub enum FeedEvent {
    /// The provider starts; `watchlist_empty` tells whether it has nothing
    /// to watch.
    Started { watchlist_empty: bool },
    /// The provider subscribed to its live feed.
    Subscribed,
    /// Shutdown was requested.
    ShutdownRequested,
    /// The live feed ended.
    StreamClosed,
}

/// How a provider run goes on after an event.
#[derive(Debug, Clone, Copy, PartialEq, Eq, Structural)]
pub enum FeedOutcome {
    /// Keep running.
    Continue,
    /// Stop, having done its work.
    Finish,
    /// Stop with a provider error.
    Fail,
}

/// The provider status a run reports on an event: the mock generator is
/// running once started; a live provider refuses an empty watchlist,
/// connects, and runs once subscribed; both are stopped on shutdown; a
/// live feed that ends leaves the provider degraded.
pub open spec fn feed_status_of(kind: QuoteProviderKind, e: FeedEvent) -> Seq<char> {
    match e {
        FeedEvent::Started { watchlist_empty } => if kind == QuoteProviderKind::Mock {
            "running"@
        } else if watchlist_empty {
            "degraded: empty_watchlist"@
        } else {
            "connecting"@
        },
        FeedEvent::Subscribed => "running"@,
        FeedEvent::ShutdownRequested => "stopped"@,
        FeedEvent::StreamClosed => "degraded: stream_closed"@,
    }
}

/// How a run goes on after an event: it fails when a live provider has
/// nothing to watch or its feed ends, finishes on shutdown, and otherwise
/// continues.
pub open spec fn feed_outcome_of(kind: QuoteProviderKind, e: FeedEvent) -> FeedOutcome {
    match e {
        FeedEvent::Started { watchlist_empty } => if kind == QuoteProviderKind::Longbridge
            && watchlist_empty {
            FeedOutcome::Fail
        } else {
            FeedOutcome::Continue
        },
        FeedEvent::Subscribed => FeedOutcome::Continue,
        FeedEvent::ShutdownRequested => FeedOutcome::Finish,
        FeedEvent::StreamClosed => FeedOutcome::Fail,
    }
}

/// The message of a failed run.
pub open spec fn feed_failure_text(e: FeedEvent) -> Seq<char> {
    match e {
        FeedEvent::StreamClosed => "Longbridge quote stream closed"@,
        _ => "Longbridge provider requires WATCHLIST"@,
    }
}

/// The status to report and how the run goes on after `e` (see
/// `feed_status_of` and `feed_outcome_of`).
pub fn feed_step(kind: QuoteProviderKind, e: FeedEvent) -> (r: (&'static str, FeedOutcome))
    ensures
        r.0@ == feed_status_of(kind, e),
        r.1 == feed_outcome_of(kind, e),
{
    match e {
        FeedEvent::Started { watchlist_empty } => {
            if kind == QuoteProviderKind::Mock {
                ("running", FeedOutcome::Continue)
            } else if watchlist_empty {
                ("degraded: empty_watchlist", FeedOutcome::Fail)
            } else {
                ("connecting", FeedOutcome::Continue)
            }
        },
        FeedEvent::Subscribed => ("running", FeedOutcome::Continue),
        FeedEvent::ShutdownRequested => ("stopped", FeedOutcome::Finish),
        FeedEvent::StreamClosed => ("degraded: stream_closed", FeedOutcome::Fail),
    }
}

/// The provider error of a run that failed on `e`.
pub fn feed_failure(e: FeedEvent) -> (err: AppError)
    ensures
        err matches AppError::Provider(m) && m@ == feed_failure_text(e),
{
    match e {
        FeedEvent::StreamClosed => AppError::provider("Longbridge quote stream closed".to_owned()),
        _ => AppError::provider("Longbridge provider requires WATCHLIST".to_owned()),
    }
}

/// Where the intraday data of a quote detail comes from.
#[derive(Debug, Clone, Copy, PartialEq, Eq, Structural)]
pub enum DetailPlan {
    /// Serve the cached points.
    ServeCached,
    /// Fetch the points from the live provider, then cache them.
    FetchLive,
    /// Serve (and cache) no points: the mock provider has none.
    ServeEmpty,
}

/// A fresh cache entry is served; otherwise a live provider is asked and
/// the mock provider has no points.
pub open spec fn detail_plan_of(
    kind: QuoteProviderKind,
    cached_at: Option<Timestamp>,
    now: Timestamp,
    ttl_ns: u128,
) -> DetailPlan {
    if cached_at matches Some(t) && cache_is_fresh(t, now, ttl_ns) {
        DetailPlan::ServeCached
    } else if kind == QuoteProviderKind::Longbridge {
        DetailPlan::FetchLive
    } else {
        DetailPlan::ServeEmpty
    }
}

/// Where the intraday data of a detail comes from (see `detail_plan_of`);
/// `cached_at` is when the cached points, if any, were fetched.
pub fn plan_detail(kind: QuoteProviderKind, cached_at: Option<Timestamp>, now: Timestamp, ttl_ns: u128) -> (p: DetailPlan)
    ensures
        p == detail_plan_of(kind, cached_at, now, ttl_ns),
{
    if let Some(t) = cached_at {
        if cache_entry_is_fresh(t, now, ttl_ns) {
            return DetailPlan::ServeCached;
        }
    }
    if kind == QuoteProviderKind::Longbridge {
        DetailPlan::FetchLive
    } else {
        DetailPlan::ServeEmpty
    }
}

/// The mock generator reports `running` and goes on as soon as it starts,
/// whether or not it has symbols to watch; a live provider with symbols
/// reports `connecting` and goes on, and one without fails.
pub proof fn law_started_provider_status(watchlist_empty: bool)
    ensures
        feed_status_of(QuoteProviderKind::Mock, FeedEvent::Started { watchlist_empty }) == "running"@,
        feed_outcome_of(QuoteProviderKind::Mock, FeedEvent::Started { watchlist_empty })
            == FeedOutcome::Continue,
        !watchlist_empty ==> feed_status_of(
            QuoteProviderKind::Longbridge,
            FeedEvent::Started { watchlist_empty },
        ) == "connecting"@,
        !watchlist_empty ==> feed_outcome_of(
            QuoteProviderKind::Longbridge,
            FeedEvent::Started { watchlist_empty },
        ) == FeedOutcome::Continue,
        watchlist_empty ==> feed_outcome_of(
            QuoteProviderKind::Longbridge,
            FeedEvent::Started { watchlist_empty },
        ) == FeedOutcome::Fail,
{
}

/// A trade status naming a halt or a suspension anywhere in it (in any
/// ASCII case) is shown as suspended; one that names neither but names a
/// close anywhere is shown as market closed; any other is normal.
pub proof fn law_trade_status_words_anywhere(status: Seq<char>, before: Seq<char>, after: Seq<char>)
    ensures
        lower_seq(status) == before + "halt"@ + after ==> status_of_trade(status) == QuoteStatus::Suspended,
        lower_seq(status) == before + "suspend"@ + after ==> status_of_trade(status)
            == QuoteStatus::Suspended,
        lower_seq(status) == before + "close"@ + after && !contains_seq(lower_seq(status), "halt"@)
            && !contains_seq(lower_seq(status), "suspend"@) ==> status_of_trade(status)
            == QuoteStatus::MarketClosed,
        !contains_seq(lower_seq(status), "halt"@) && !contains_seq(lower_seq(status), "suspend"@)
            && !contains_seq(lower_seq(status), "close"@) ==> status_of_trade(status)
            == QuoteStatus::Normal,
{
    let s = lower_seq(status);
    let i = before.len() as int;
    if s == before + "halt"@ + after {
        assert(s.subrange(i, i + "halt"@.len()) == "halt"@);
    }
    if s == before + "suspend"@ + after {
        assert(s.subrange(i, i + "suspend"@.len()) == "suspend"@);
    }
    if s == before + "close"@ + after {
        assert(s.subrange(i, i + "close"@.len()) == "close"@);
    }
}

/// A fresh cached detail is served whatever the provider; without one a
/// live provider is asked and the mock provider serves no points.
pub proof fn law_detail_sources(kind: QuoteProviderKind, cached_at: Timestamp, now: Timestamp, ttl_ns: u128)
    ensures
        cache_is_fresh(cached_at, now, ttl_ns) ==> detail_plan_of(kind, Some(cached_at), now, ttl_ns)
            == DetailPlan::ServeCached,
        !cache_is_fresh(cached_at, now, ttl_ns) ==> detail_plan_of(
            QuoteProviderKind::Longbridge,
            Some(cached_at),
            now,
            ttl_ns,
        ) == DetailPlan::FetchLive,
        detail_plan_of(QuoteProviderKind::Longbridge, None, now, ttl_ns) == DetailPlan::FetchLive,
        detail_plan_of(QuoteProviderKind::Mock, None, now, ttl_ns) == DetailPlan::ServeEmpty,
{
}

/// Generated volumes start at one million and grow by a thousand per round
/// and by ten thousand per position in the watchlist.
pub proof fn law_mock_volume_steps(index: int, sequence: int)
    ensures
        mock_volume(0, 0) == 1_000_000,
        mock_volume(index, sequence + 1) == mock_volume(index, sequence) + 1_000,
        mock_volume(index + 1, sequence) == mock_volume(index, sequence) + 10_000,
{
}

/// Every provider reports `stopped` and finishes on shutdown, and a live
/// feed that ends fails the run with the provider degraded.
pub proof fn law_provider_stops_and_fails(kind: QuoteProviderKind)
    ensures
        feed_status_of(kind, FeedEvent::ShutdownRequested) == "stopped"@,
        feed_outcome_of(kind, FeedEvent::ShutdownRequested) == FeedOutcome::Finish,
        feed_status_of(kind, FeedEvent::StreamClosed) == "degraded: stream_closed"@,
        feed_outcome_of(kind, FeedEvent::StreamClosed) == FeedOutcome::Fail,
        feed_status_of(kind, FeedEvent::Subscribed) == "running"@,
        feed_outcome_of(kind, FeedEvent::Subscribed) == FeedOutcome::Continue,
{
}

} // verus!
