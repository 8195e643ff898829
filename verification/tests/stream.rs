use tab5_stock_backend::config::{normalize_provider_symbol, QuoteProviderKind};
use tab5_stock_backend::error::AppError;
use tab5_stock_backend::models::{Market, Timestamp};
use tab5_stock_backend::providers::{feed_failure, feed_step, plan_detail, DetailPlan, FeedEvent, FeedOutcome};
use tab5_stock_backend::stream::{lag_notice, stream_step, StreamAction, StreamEvent, SNAPSHOT_INTERVAL_SECS};

#[test]
fn stream_sessions_start_and_tick_with_snapshots() {
    assert_eq!(stream_step(StreamEvent::Opened), StreamAction::SendSnapshot);
    assert_eq!(stream_step(StreamEvent::SnapshotTick), StreamAction::SendSnapshot);
    assert_eq!(SNAPSHOT_INTERVAL_SECS, 1);
}

#[test]
fn stream_sessions_answer_and_forward() {
    assert_eq!(stream_step(StreamEvent::PingReceived), StreamAction::SendPong);
    assert_eq!(stream_step(StreamEvent::TextReceived), StreamAction::HandleText);
    assert_eq!(stream_step(StreamEvent::BroadcastReceived), StreamAction::Forward);
    assert_eq!(stream_step(StreamEvent::DetailReady), StreamAction::Forward);
    assert_eq!(stream_step(StreamEvent::OtherFrame), StreamAction::Ignore);
    assert_eq!(stream_step(StreamEvent::BroadcastLagged(7)), StreamAction::SendLagNotice(7));
}

#[test]
fn stream_sessions_close_on_end_or_failure() {
    for event in [
        StreamEvent::ClientClosed,
        StreamEvent::ReadFailed,
        StreamEvent::BroadcastClosed,
        StreamEvent::DetailsClosed,
        StreamEvent::SendFailed,
    ] {
        assert_eq!(stream_step(event), StreamAction::Close);
    }
}

#[test]
fn lag_notice_counts_skipped_updates() {
    assert_eq!(lag_notice(3), "client lagged and skipped 3 updates");
    for skipped in [0u64, 9, 10, 12345, u64::MAX] {
        assert_eq!(lag_notice(skipped), format!("client lagged and skipped {skipped} updates"));
    }
}

#[test]
fn provider_runs_report_their_status() {
    let lb = QuoteProviderKind::Longbridge;
    assert_eq!(feed_step(QuoteProviderKind::Mock, FeedEvent::Started { watchlist_empty: true }), ("running", FeedOutcome::Continue));
    assert_eq!(feed_step(lb, FeedEvent::Started { watchlist_empty: true }), ("degraded: empty_watchlist", FeedOutcome::Fail));
    assert_eq!(feed_step(lb, FeedEvent::Started { watchlist_empty: false }), ("connecting", FeedOutcome::Continue));
    assert_eq!(feed_step(lb, FeedEvent::Subscribed), ("running", FeedOutcome::Continue));
    assert_eq!(feed_step(lb, FeedEvent::ShutdownRequested), ("stopped", FeedOutcome::Finish));
    assert_eq!(feed_step(lb, FeedEvent::StreamClosed), ("degraded: stream_closed", FeedOutcome::Fail));
    assert_eq!(
        feed_failure(FeedEvent::Started { watchlist_empty: true }),
        AppError::Provider("Longbridge provider requires WATCHLIST".to_string())
    );
    assert_eq!(
        feed_failure(FeedEvent::StreamClosed),
        AppError::Provider("Longbridge quote stream closed".to_string())
    );
}

#[test]
fn details_come_from_cache_live_feed_or_nowhere() {
    let now = Timestamp { secs: 100, nanos: 0 };
    let ttl: u128 = 30_000_000_000;
    let fresh = Some(Timestamp { secs: 90, nanos: 0 });
    let old = Some(Timestamp { secs: 60, nanos: 0 });
    assert_eq!(plan_detail(QuoteProviderKind::Longbridge, fresh, now, ttl), DetailPlan::ServeCached);
    assert_eq!(plan_detail(QuoteProviderKind::Longbridge, old, now, ttl), DetailPlan::FetchLive);
    assert_eq!(plan_detail(QuoteProviderKind::Longbridge, None, now, ttl), DetailPlan::FetchLive);
    assert_eq!(plan_detail(QuoteProviderKind::Mock, None, now, ttl), DetailPlan::ServeEmpty);
    assert_eq!(plan_detail(QuoteProviderKind::Mock, fresh, now, ttl), DetailPlan::ServeCached);
}

#[test]
fn provider_symbol_keeps_market() {
    for symbol in ["00700.hk", "0.HK", "600519.SH", "HK", ".HK", "a.b.hk", "x.h", "09988.Hk"] {
        let normalized = normalize_provider_symbol(symbol);
        assert_eq!(Market::infer(&normalized), Market::infer(symbol), "{symbol}");
    }
    assert_eq!(Market::infer(&normalize_provider_symbol("00700.hk")), Market::Hk);
}
