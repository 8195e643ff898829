use std::time::{SystemTime, UNIX_EPOCH};

use tab5_stock_backend::config::{QuoteProviderKind, WatchItem};
use tab5_stock_backend::models::{Market, Quote, QuoteStatus, Timestamp};
use tab5_stock_backend::store::QuoteStore;

type Prices = (f64, f64);

fn test_watchlist() -> Vec<WatchItem> {
    vec![
        WatchItem::new("600519.SH", "贵州茅台", Market::Cn),
        WatchItem::new("00700.HK", "腾讯控股", Market::Hk),
    ]
}

fn quote_at(symbol: &str, secs: i64, last: f64) -> Quote<Prices> {
    Quote {
        symbol: symbol.to_string(),
        name: symbol.to_string(),
        market: Market::infer(symbol),
        prices: (last, 0.0),
        volume: 10,
        trade_status: "normal".to_string(),
        status: QuoteStatus::Normal,
        quote_ts: Timestamp { secs, nanos: 0 },
        server_ts: Timestamp { secs, nanos: 0 },
        stale: false,
        stale_after_ms: 20_000,
    }
}

fn now_secs() -> i64 {
    SystemTime::now().duration_since(UNIX_EPOCH).unwrap().as_secs() as i64
}

#[test]
fn snapshot_marks_old_quotes_stale() {
    let mut store: QuoteStore<Prices> = QuoteStore::new(test_watchlist());
    let quote = quote_at("600519.SH", now_secs() - 5, 1680.0);
    assert!(store.upsert_quote(quote));
    let snapshot = store.snapshot(1_000_000_000);
    assert_eq!(snapshot.len(), 1);
    assert!(snapshot[0].stale);
    assert_eq!(snapshot[0].status, QuoteStatus::Stale);
}

#[test]
fn quotes_for_unwatched_symbols_are_ignored() {
    let mut store: QuoteStore<Prices> = QuoteStore::new(test_watchlist());
    assert!(!store.upsert_quote(quote_at("000001.SZ", 1, 1.0)));
    assert!(store.snapshot_at(Timestamp { secs: 1, nanos: 0 }, 0).is_empty());
    assert_eq!(store.health_at(QuoteProviderKind::Mock, Timestamp { secs: 1, nanos: 0 }).last_quote_ts, None);
}

#[test]
fn latest_quote_replaces_earlier_one_and_snapshot_is_in_symbol_order() {
    let mut store: QuoteStore<Prices> = QuoteStore::new(test_watchlist());
    assert!(store.upsert_quote(quote_at("600519.SH", 10, 1.0)));
    assert!(store.upsert_quote(quote_at("00700.HK", 11, 2.0)));
    assert!(store.upsert_quote(quote_at("600519.SH", 12, 3.0)));
    let snapshot = store.snapshot_at(Timestamp { secs: 12, nanos: 0 }, 60_000_000_000);
    let symbols: Vec<&str> = snapshot.iter().map(|q| q.symbol.as_str()).collect();
    assert_eq!(symbols, vec!["00700.HK", "600519.SH"]);
    assert_eq!(snapshot[1].prices, (3.0, 0.0));
    assert!(!snapshot[1].stale);
    let latest = store.quote_of("600519.SH").unwrap();
    assert_eq!(latest.prices, (3.0, 0.0));
    assert!(store.quote_of("000001.SZ").is_none());
    let health = store.health_at(QuoteProviderKind::Mock, Timestamp { secs: 20, nanos: 0 });
    assert_eq!(health.quote_count, 2);
    assert_eq!(health.last_quote_ts, Some(Timestamp { secs: 12, nanos: 0 }));
    assert_eq!(health.server_ts, Timestamp { secs: 20, nanos: 0 });
}

#[test]
fn health_reports_provider_and_quote_state() {
    let mut store: QuoteStore<Prices> = QuoteStore::new(test_watchlist());
    let starting = store.health(QuoteProviderKind::Mock);
    assert_eq!(starting.status, "degraded");
    assert_eq!(starting.provider_status, "starting");
    store.set_provider_status("running".to_string());
    let health = store.health(QuoteProviderKind::Mock);
    assert_eq!(health.status, "ok");
    assert_eq!(health.provider, "mock");
    let live = store.health(QuoteProviderKind::Longbridge);
    assert_eq!(live.provider, "longbridge");
}

#[test]
fn watchlist_returns_cn_and_hk_symbols() {
    let store: QuoteStore<Prices> = QuoteStore::new(test_watchlist());
    let items = store.watchlist_items();
    assert_eq!(items.len(), 2);
    assert_eq!(items[0].symbol, "600519.SH");
    assert_eq!(items[1].market, Market::Hk);
    assert_eq!(store.watchlist()[1].provider_symbol, "700.HK");
}

#[test]
fn admin_rejects_invalid_symbols() {
    let store: QuoteStore<Prices> = QuoteStore::new(test_watchlist());
    assert!(store.plan_upsert("600519", Some("贵州茅台")).is_err());
    assert!(store.plan_delete("600519").is_err());
}

#[test]
fn admin_can_add_and_delete_watch_items() {
    let mut store: QuoteStore<Prices> = QuoteStore::new(test_watchlist());
    let (changed, items) = store.plan_upsert("09988.HK", Some("阿里巴巴-W")).unwrap();
    assert!(changed);
    let symbols: Vec<&str> = items.iter().map(|i| i.symbol.as_str()).collect();
    assert_eq!(symbols, vec!["00700.HK", "09988.HK", "600519.SH"]);
    assert_eq!(store.commit_watchlist(items), 1);
    assert!(store.watchlist_items().iter().any(|item| item.symbol == "09988.HK"));

    let (deleted, items) = store.plan_delete("09988.HK").unwrap();
    assert!(deleted);
    assert!(!items.iter().any(|item| item.symbol == "09988.HK"));
    assert_eq!(store.commit_watchlist(items), 2);
    assert!(!store.watchlist_items().iter().any(|item| item.symbol == "09988.HK"));
}

#[test]
fn upserting_the_same_entry_twice_changes_nothing() {
    let mut store: QuoteStore<Prices> = QuoteStore::new(test_watchlist());
    let (changed, items) = store.plan_upsert("000002.sz", Some("万科A")).unwrap();
    assert!(changed);
    store.commit_watchlist(items);
    let (again, items) = store.plan_upsert("000002.SZ", Some("万科A")).unwrap();
    assert!(!again);
    assert_eq!(items.len(), 3);
    let (renamed, items) = store.plan_upsert("000002.SZ", Some("Vanke")).unwrap();
    assert!(renamed);
    assert_eq!(items.iter().find(|i| i.symbol == "000002.SZ").unwrap().name, "Vanke");
}

#[test]
fn planning_does_not_change_the_store() {
    let store: QuoteStore<Prices> = QuoteStore::new(test_watchlist());
    let before = store.watchlist_items();
    let _ = store.plan_upsert("09988.HK", Some("阿里巴巴-W")).unwrap();
    let _ = store.plan_delete("600519.SH").unwrap();
    assert_eq!(store.watchlist_items(), before);
}

#[test]
fn upsert_keeps_stored_quotes() {
    let mut store: QuoteStore<Prices> = QuoteStore::new(test_watchlist());
    store.upsert_quote(quote_at("600519.SH", 1, 1.0));
    let (_, items) = store.plan_upsert("600519.SH", Some("Moutai")).unwrap();
    store.commit_watchlist(items);
    assert_eq!(store.snapshot_at(Timestamp { secs: 1, nanos: 0 }, 0).len(), 1);
}

#[test]
fn quotes_for_deleted_symbols_are_ignored() {
    let mut store: QuoteStore<Prices> = QuoteStore::new(test_watchlist());
    let quote = quote_at("600519.SH", 1, 1.0);
    assert!(store.upsert_quote(quote.clone()));
    assert!(store.snapshot(u128::MAX).iter().any(|q| q.symbol == "600519.SH"));

    let (deleted, items) = store.plan_delete("600519.SH").unwrap();
    assert!(deleted);
    store.commit_watchlist(items);
    assert!(!store.upsert_quote(quote));

    assert!(!store.snapshot(u128::MAX).iter().any(|q| q.symbol == "600519.SH"));
}

#[test]
fn deleting_an_unwatched_symbol_deletes_nothing() {
    let store: QuoteStore<Prices> = QuoteStore::new(test_watchlist());
    let (deleted, items) = store.plan_delete("000001.SZ").unwrap();
    assert!(!deleted);
    assert_eq!(items.len(), 2);
}

#[test]
fn upsert_sorts_stably_by_symbol() {
    let list = vec![
        WatchItem::new("600519.SH", "b", Market::Cn),
        WatchItem::new("000001.SZ", "first", Market::Cn),
        WatchItem::new("000001.SZ", "second", Market::Cn),
    ];
    let store: QuoteStore<Prices> = QuoteStore::new(list);
    let (changed, items) = store.plan_upsert("300750.SZ", None).unwrap();
    assert!(changed);
    let order: Vec<(&str, &str)> = items.iter().map(|i| (i.symbol.as_str(), i.name.as_str())).collect();
    assert_eq!(
        order,
        vec![("000001.SZ", "first"), ("000001.SZ", "second"), ("300750.SZ", "300750.SZ"), ("600519.SH", "b")]
    );
}

#[test]
fn watch_items_are_found_by_display_symbol() {
    let store: QuoteStore<Prices> = QuoteStore::new(test_watchlist());
    let item = store.watch_item("00700.HK").unwrap();
    assert_eq!(item.provider_symbol, "700.HK");
    assert_eq!(item.name, "腾讯控股");
    assert!(store.watch_item("700.HK").is_none());
    assert!(store.is_watching("600519.SH"));
    assert!(!store.is_watching("600519.sh"));
    assert_eq!(store.watchlist_revision(), 0);
}
