use tab5_stock_backend::access::{authorize, authorize_admin};
use tab5_stock_backend::config::{QuoteProviderKind, WatchItem};
use tab5_stock_backend::error::AppError;
use tab5_stock_backend::models::{Market, QuoteStatus, Timestamp};
use tab5_stock_backend::providers::{find_by_provider_symbol, mock_quote_frame, provider_quote, MockQuoteProvider};
use tab5_stock_backend::supervisor::{next_provider_step, ProviderStep};

#[test]
fn device_token_rejects_unauthorized_requests() {
    assert_eq!(authorize(Some("secret"), None, None), Err(AppError::Unauthorized));
    assert_eq!(authorize(Some("secret"), Some("Bearer wrong"), None), Err(AppError::Unauthorized));
    assert_eq!(authorize(Some("secret"), Some("secret"), None), Err(AppError::Unauthorized));
}

#[test]
fn device_token_accepts_bearer_header() {
    assert_eq!(authorize(Some("secret"), Some("Bearer secret"), None), Ok(()));
}

#[test]
fn websocket_accepts_device_token_query() {
    assert_eq!(authorize(Some("secret"), None, Some("secret")), Ok(()));
    assert_eq!(authorize(Some("secret"), None, Some("other")), Err(AppError::Unauthorized));
}

#[test]
fn open_device_routes_without_token() {
    assert_eq!(authorize(None, None, None), Ok(()));
}

#[test]
fn admin_mutations_require_device_token_even_when_device_routes_are_open() {
    assert_eq!(authorize(None, None, None), Ok(()));
    assert_eq!(authorize_admin(None, Some("Bearer anything")), Err(AppError::Unauthorized));
    assert_eq!(authorize_admin(Some("secret"), Some("Bearer secret")), Ok(()));
    assert_eq!(authorize_admin(Some("secret"), None), Err(AppError::Unauthorized));
}

#[test]
fn supervisor_steps() {
    assert_eq!(next_provider_step(QuoteProviderKind::Mock, true, true), ProviderStep::Stop);
    assert_eq!(next_provider_step(QuoteProviderKind::Mock, false, false), ProviderStep::Stop);
    assert_eq!(next_provider_step(QuoteProviderKind::Mock, false, true), ProviderStep::Restart);
    assert_eq!(next_provider_step(QuoteProviderKind::Longbridge, false, false), ProviderStep::RestartAfterDelay);
    assert_eq!(next_provider_step(QuoteProviderKind::Longbridge, false, true), ProviderStep::Restart);
    assert_eq!(next_provider_step(QuoteProviderKind::Longbridge, true, false), ProviderStep::Stop);
}

#[test]
fn mock_quotes_carry_volume_and_normal_status() {
    let item = WatchItem::new("600519.SH", "贵州茅台", Market::Cn);
    let q = mock_quote_frame(&item, 2, 3, 20_000, (1.0f64, 2.0f64));
    assert_eq!(q.symbol, "600519.SH");
    assert_eq!(q.name, "贵州茅台");
    assert_eq!(q.volume, 1_000_000 + 3 * 1_000 + 2 * 10_000);
    assert_eq!(q.trade_status, "normal");
    assert_eq!(q.status, QuoteStatus::Normal);
    assert_eq!(q.quote_ts, q.server_ts);
    assert!(!q.stale);
    assert_eq!(q.stale_after_ms, 20_000);
}

#[test]
fn provider_quotes_clamp_volume_and_map_status() {
    let item = WatchItem::new("00700.HK", "腾讯控股", Market::Hk);
    let ts = Timestamp { secs: 1_700_000_000, nanos: 0 };
    let q = provider_quote(&item, (), -5, "halted".to_string(), ts, 1_000);
    assert_eq!(q.volume, 0);
    assert_eq!(q.status, QuoteStatus::Suspended);
    assert_eq!(q.quote_ts, ts);
    assert_eq!(q.market, Market::Hk);
    let q = provider_quote(&item, (), 42, "normal".to_string(), ts, 1_000);
    assert_eq!(q.volume, 42);
    assert_eq!(q.status, QuoteStatus::Normal);
}

#[test]
fn provider_symbols_find_watch_items() {
    let provider = MockQuoteProvider::new(vec![
        WatchItem::new("600519.SH", "贵州茅台", Market::Cn),
        WatchItem::new("00700.HK", "腾讯控股", Market::Hk),
    ]);
    assert_eq!(find_by_provider_symbol(provider.watchlist(), "700.HK"), Some(1));
    assert_eq!(find_by_provider_symbol(provider.watchlist(), "00700.HK"), None);
}

#[test]
fn provider_errors_carry_their_message() {
    assert_eq!(AppError::provider("down".to_string()), AppError::Provider("down".to_string()));
}
