//! The quote stream a device holds open over WebSocket: what the server
//! does on each event of a session.

use vstd::prelude::*;
use crate::number::{digit_value, is_digit, scan_digits, u64_of, IntErrorKind};
use crate::text::push_char;

verus! {

/// How often, in seconds, a session is sent a fresh snapshot.
pub const SNAPSHOT_INTERVAL_SECS: u64 = 1;

/// What happens on a stream session.
#[derive(Debug, Clone, Copy, PartialEq, Eq, Structural)]
pub enum StreamEvent {
    /// The device connected.
    Opened,
    /// The device sent a ping.
    PingReceived,
    /// The device sent a text frame.
    TextReceived,
    /// The device sent a close frame, or its input ended.
    ClientClosed,
    /// Reading from the device failed.
    ReadFailed,
    /// The device sent a frame of another kind.
    OtherFrame,
    /// A message was broadcast to all sessions.
    BroadcastReceived,
    /// The session fell behind the broadcast and missed this many messages.
    BroadcastLagged(u64),
    /// The broadcast ended.
    BroadcastClosed,
    /// An answer to the device's detail request is ready.
    DetailReady,
    /// No more detail answers can arrive.
    DetailsClosed,
    /// The snapshot interval elapsed.
    SnapshotTick,
    /// Sending to the device failed.
    SendFailed,
}

/// What the server does next on a stream session.
#[derive(Debug, Clone, Copy, PartialEq, Eq, Structural)]
pub enum StreamAction {
    /// Send the current snapshot of all quotes.
    SendSnapshot,
    /// Answer the ping with a pong carrying its payload.
    SendPong,
    /// Handle the device's text as a request.
    HandleText,
    /// Send the received message on to the device.
    Forward,
    /// Send an error message telling that this many messages were missed.
    SendLagNotice(u64),
    /// Do nothing.
    Ignore,
    /// End the session.
    Close,
}

/// The server's answer to each event: a snapshot on connection and on
/// every tick, a pong for a ping, requests handled, broadcast and detail
/// messages forwarded, a notice when the session lagged, and the end of the
/// session when the device leaves, reading or sending fails, or a source
/// of messages closes.
pub open spec fn stream_action_of(e: StreamEvent) -> StreamAction {
    match e {
        StreamEvent::Opened => StreamAction::SendSnapshot,
        StreamEvent::PingReceived => StreamAction::SendPong,
        StreamEvent::TextReceived => StreamAction::HandleText,
        StreamEvent::ClientClosed => StreamAction::Close,
        StreamEvent::ReadFailed => StreamAction::Close,
        StreamEvent::OtherFrame => StreamAction::Ignore,
        StreamEvent::BroadcastReceived => StreamAction::Forward,
        StreamEvent::BroadcastLagged(n) => StreamAction::SendLagNotice(n),
        StreamEvent::BroadcastClosed => StreamAction::Close,
        StreamEvent::DetailReady => StreamAction::Forward,
        StreamEvent::DetailsClosed => StreamAction::Close,
        StreamEvent::SnapshotTick => StreamAction::SendSnapshot,
        StreamEvent::SendFailed => StreamAction::Close,
    }
}

/// The server's next action on a stream session (see `stream_action_of`).
pub fn stream_step(e: StreamEvent) -> (a: StreamAction)
    ensures
        a == stream_action_of(e),
{
    match e {
        StreamEvent::Opened => StreamAction::SendSnapshot,
        StreamEvent::PingReceived => StreamAction::SendPong,
        StreamEvent::TextReceived => StreamAction::HandleText,
        StreamEvent::ClientClosed => StreamAction::Close,
        StreamEvent::ReadFailed => StreamAction::Close,
        StreamEvent::OtherFrame => StreamAction::Ignore,
        StreamEvent::BroadcastReceived => StreamAction::Forward,
        StreamEvent::BroadcastLagged(n) => StreamAction::SendLagNotice(n),
        StreamEvent::BroadcastClosed => StreamAction::Close,
        StreamEvent::DetailReady => StreamAction::Forward,
        StreamEvent::DetailsClosed => StreamAction::Close,
        StreamEvent::SnapshotTick => StreamAction::SendSnapshot,
        StreamEvent::SendFailed => StreamAction::Close,
    }
}

/// The decimal digit character for `d` (0 to 9).
pub open spec fn digit_char(d: int) -> char {
    (d + 48) as char
}

/// The decimal form of a non-negative number, as `{}` formats it.
pub open spec fn decimal_of(n: nat) -> Seq<char>
    decreases n,
{
    if n < 10 {
        seq![digit_char(n as int)]
    } else {
        decimal_of(n / 10) + seq![digit_char((n % 10) as int)]
    }
}

/// Appends the decimal form of `n` to `s`.
pub fn push_decimal(s: &mut String, n: u64)
    ensures
        final(s)@ == old(s)@ + decimal_of(n as nat),
    decreases n,
{
    if n >= 10 {
        push_decimal(s, n / 10);
    }
    let d: u64 = n % 10;
    let b: u8 = d as u8;
    assert(b == d);
    push_char(s, (b + 48) as char);
}

/// The notice sent to a session that missed `skipped` broadcast messages.
pub fn lag_notice(skipped: u64) -> (s: String)
    ensures
        s@ == "client lagged and skipped "@ + decimal_of(skipped as nat) + " updates"@,
{
    let mut s = "client lagged and skipped ".to_owned();
    push_decimal(&mut s, skipped);
    s.append(" updates");
    s
}

/// A session ends exactly when a source closes or a read or send fails,
/// and every tick sends a snapshot.
pub proof fn law_stream_closes_only_on_failure_or_end(e: StreamEvent)
    ensures
        stream_action_of(e) == StreamAction::Close <==> (e == StreamEvent::ClientClosed || e
            == StreamEvent::ReadFailed || e == StreamEvent::BroadcastClosed || e
            == StreamEvent::DetailsClosed || e == StreamEvent::SendFailed),
        stream_action_of(StreamEvent::SnapshotTick) == StreamAction::SendSnapshot,
        stream_action_of(StreamEvent::Opened) == StreamAction::SendSnapshot,
{
}

/// Reading digits on from where a prefix left off.
proof fn lemma_scan_append(a: Seq<char>, b: Seq<char>, acc: int, m: int)
    requires
        scan_digits(a, acc) == Ok::<int, IntErrorKind>(m),
    ensures
        scan_digits(a + b, acc) == scan_digits(b, m),
    decreases a.len(),
{
    if a.len() == 0 {
        assert(a + b == b);
    } else {
        assert((a + b)[0] == a[0]);
        assert((a + b).drop_first() == a.drop_first() + b);
        lemma_scan_append(a.drop_first(), b, acc * 10 + digit_value(a[0]), m);
    }
}

/// The decimal form of `n` is made of digits and reads back as `n`.
pub proof fn lemma_decimal_reads_back(n: nat)
    requires
        n <= u64::MAX,
    ensures
        decimal_of(n).len() >= 1,
        forall|j: int| 0 <= j < decimal_of(n).len() ==> is_digit(#[trigger] decimal_of(n)[j]),
        scan_digits(decimal_of(n), 0) == Ok::<int, IntErrorKind>(n as int),
    decreases n,
{
    let d = (n % 10) as int;
    let c = digit_char(d);
    assert(c as u32 == d + 48);
    assert('0' <= c && c <= '9');
    assert(digit_value(c) == d);
    let one = seq![c];
    assert(one.drop_first() == Seq::<char>::empty());
    if n < 10 {
        assert(decimal_of(n) == one);
        assert(scan_digits(one.drop_first(), d) == Ok::<int, IntErrorKind>(d));
    } else {
        let q = n / 10;
        lemma_decimal_reads_back(q);
        assert(decimal_of(n) == decimal_of(q) + one);
        lemma_scan_append(decimal_of(q), one, 0, q as int);
        assert(q * 10 + d == n);
        assert(scan_digits(one.drop_first(), q * 10 + d) == Ok::<int, IntErrorKind>(n as int));
        assert forall|j: int| 0 <= j < decimal_of(n).len() implies is_digit(#[trigger] decimal_of(n)[j]) by {
            if j < decimal_of(q).len() {
                assert(decimal_of(n)[j] == decimal_of(q)[j]);
            } else {
                assert(decimal_of(n)[j] == c);
            }
        }
    }
}

/// Every `u64` reads back from the decimal form the notices use.
pub proof fn law_decimal_round_trip(n: u64)
    ensures
        u64_of(decimal_of(n as nat)) == Ok::<int, IntErrorKind>(n as int),
{
    lemma_decimal_reads_back(n as nat);
    assert(is_digit(decimal_of(n as nat)[0]));
}

/// A session answers pings with pongs, hands text on as requests, forwards
/// broadcast and detail messages, tells a lagging device how many updates
/// it missed, and ignores other frames.
pub proof fn law_stream_answers(skipped: u64)
    ensures
        stream_action_of(StreamEvent::PingReceived) == StreamAction::SendPong,
        stream_action_of(StreamEvent::TextReceived) == StreamAction::HandleText,
        stream_action_of(StreamEvent::BroadcastReceived) == StreamAction::Forward,
        stream_action_of(StreamEvent::DetailReady) == StreamAction::Forward,
        stream_action_of(StreamEvent::BroadcastLagged(skipped)) == StreamAction::SendLagNotice(skipped),
        stream_action_of(StreamEvent::OtherFrame) == StreamAction::Ignore,
{
}

} // verus!
