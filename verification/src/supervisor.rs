//! The decisions of the task that keeps a quote provider running.

use vstd::prelude::*;
use crate::config::QuoteProviderKind;

verus! {

/// How long the supervisor waits before restarting a provider that stopped
/// on its own.
pub const RESTART_DELAY_SECS: u64 = 5;

/// What the supervisor does once a provider run has ended.
#[derive(Debug, Clone, Copy, PartialEq, Eq, Structural)]
pub enum ProviderStep {
    /// Stop supervising.
    Stop,
    /// Start a new provider run at once, with the current watchlist.
    Restart,
    /// Start a new provider run after `RESTART_DELAY_SECS` seconds.
    RestartAfterDelay,
}

/// After a run ends: stop once shutdown is requested; restart at once when
/// the watchlist changed; otherwise a mock provider is not restarted and a
/// live provider is restarted after a delay.
pub open spec fn provider_step_for(kind: QuoteProviderKind, shutdown_requested: bool, watchlist_changed: bool) -> ProviderStep {
    if shutdown_requested {
        ProviderStep::Stop
    } else if watchlist_changed {
        ProviderStep::Restart
    } else if kind == QuoteProviderKind::Mock {
        ProviderStep::Stop
    } else {
        ProviderStep::RestartAfterDelay
    }
}

/// What to do after a provider run ended (see `provider_step_for`).
pub fn next_provider_step(kind: QuoteProviderKind, shutdown_requested: bool, watchlist_changed: bool) -> (s: ProviderStep)
    ensures
        s == provider_step_for(kind, shutdown_requested, watchlist_changed),
{
    if shutdown_requested {
        return ProviderStep::Stop;
    }
    if kind == QuoteProviderKind::Mock && !watchlist_changed {
        return ProviderStep::Stop;
    }
    if !watchlist_changed {
        ProviderStep::RestartAfterDelay
    } else {
        ProviderStep::Restart
    }
}

/// Shutdown always stops the supervisor; a changed watchlist restarts the
/// provider at once; a live provider that ended on its own is restarted
/// after the delay, a mock one is not restarted.
pub proof fn law_provider_restarts(kind: QuoteProviderKind, watchlist_changed: bool)
    ensures
        provider_step_for(kind, true, watchlist_changed) == ProviderStep::Stop,
        provider_step_for(kind, false, true) == ProviderStep::Restart,
        provider_step_for(QuoteProviderKind::Longbridge, false, false) == ProviderStep::RestartAfterDelay,
        provider_step_for(QuoteProviderKind::Mock, false, false) == ProviderStep::Stop,
{
}

} // verus!
