use tab5_stock_backend::models::{cache_entry_is_fresh, Market, Quote, QuoteStatus, Timestamp};
use tab5_stock_backend::providers::quote_status_from_trade_status;

fn quote(symbol: &str, trade_status: &str, status: QuoteStatus, server_secs: i64) -> Quote<(f64, f64)> {
    Quote {
        symbol: symbol.to_string(),
        name: symbol.to_string(),
        market: Market::infer(symbol),
        prices: (1680.5, -3.25),
        volume: 1_000,
        trade_status: trade_status.to_string(),
        status,
        quote_ts: Timestamp { secs: server_secs, nanos: 0 },
        server_ts: Timestamp { secs: server_secs, nanos: 0 },
        stale: false,
        stale_after_ms: 20_000,
    }
}

#[test]
fn market_is_inferred_from_suffix_in_any_case() {
    assert_eq!(Market::infer("00700.HK"), Market::Hk);
    assert_eq!(Market::infer("00700.hk"), Market::Hk);
    assert_eq!(Market::infer("600519.SH"), Market::Cn);
    assert_eq!(Market::infer("HK"), Market::Cn);
    assert_eq!(Market::infer(".HK"), Market::Hk);
}

#[test]
fn status_follows_trade_status_for_normal_quotes() {
    assert_eq!(quote("A.SH", "Suspended", QuoteStatus::Normal, 0).status(), QuoteStatus::Suspended);
    assert_eq!(quote("A.SH", "MARKET_CLOSED", QuoteStatus::Normal, 0).status(), QuoteStatus::MarketClosed);
    assert_eq!(quote("A.SH", "normal", QuoteStatus::Normal, 0).status(), QuoteStatus::Normal);
    assert_eq!(quote("A.SH", "suspended", QuoteStatus::Offline, 0).status(), QuoteStatus::Offline);
    let mut stale = quote("A.SH", "suspended", QuoteStatus::Normal, 0);
    stale.stale = true;
    assert_eq!(stale.status(), QuoteStatus::Stale);
}

#[test]
fn freshness_marks_quotes_older_than_the_window() {
    let q = quote("A.SH", "normal", QuoteStatus::Normal, 100);
    let window: u128 = 1_000_000_000;
    let just_inside = q.clone().with_freshness(Timestamp { secs: 101, nanos: 0 }, window);
    assert!(!just_inside.stale);
    assert_eq!(just_inside.status, QuoteStatus::Normal);
    let past = q.clone().with_freshness(Timestamp { secs: 101, nanos: 1 }, window);
    assert!(past.stale);
    assert_eq!(past.status, QuoteStatus::Stale);
    let earlier = q.clone().with_freshness(Timestamp { secs: 50, nanos: 0 }, window);
    assert!(!earlier.stale);
    assert_eq!(earlier.prices, (1680.5, -3.25));
}

#[test]
fn freshness_is_idempotent_and_stale_is_permanent() {
    let q = quote("A.SH", "market_closed", QuoteStatus::Normal, 100);
    let now = Timestamp { secs: 100, nanos: 0 };
    let once = q.clone().with_freshness(now, 5);
    let twice = once.clone().with_freshness(now, 5);
    assert_eq!(once.status, QuoteStatus::MarketClosed);
    assert_eq!(twice.status, once.status);
    assert_eq!(twice.stale, once.stale);
    let stale = q.with_freshness(Timestamp { secs: 200, nanos: 0 }, 5);
    assert!(stale.stale);
    let later = stale.with_freshness(Timestamp { secs: 100, nanos: 0 }, u128::MAX);
    assert!(later.stale);
    assert_eq!(later.status, QuoteStatus::Stale);
}

#[test]
fn trade_status_text_maps_to_quote_status() {
    assert_eq!(quote_status_from_trade_status("Halted"), QuoteStatus::Suspended);
    assert_eq!(quote_status_from_trade_status("suspendtrade"), QuoteStatus::Suspended);
    assert_eq!(quote_status_from_trade_status("Closed"), QuoteStatus::MarketClosed);
    assert_eq!(quote_status_from_trade_status("normal"), QuoteStatus::Normal);
    assert_eq!(quote_status_from_trade_status(""), QuoteStatus::Normal);
}

#[test]
fn cache_entries_expire_after_ttl() {
    let fetched = Timestamp { secs: 10, nanos: 500 };
    let ttl: u128 = 30_000_000_000;
    assert!(cache_entry_is_fresh(fetched, Timestamp { secs: 39, nanos: 0 }, ttl));
    assert!(!cache_entry_is_fresh(fetched, Timestamp { secs: 40, nanos: 500 }, ttl));
    assert!(cache_entry_is_fresh(fetched, Timestamp { secs: 5, nanos: 0 }, ttl));
}

#[test]
fn timestamps_count_nanoseconds() {
    assert_eq!(Timestamp { secs: 2, nanos: 5 }.as_nanos(), 2_000_000_005);
    assert_eq!(Timestamp { secs: -1, nanos: 0 }.as_nanos(), -1_000_000_000);
}
