//! The local WebSocket bridge: which requests are let in, and what one
//! connection does with each event.
//!
//! The bridge is broadcast-only: a message from a client is handed to the
//! dispatcher, and the only text a connection ever sends is what the fan-out
//! delivers to all of them. A client is pinged every [`PING_INTERVAL`] and
//! dropped at a ping once nothing has come from it for longer than
//! [`PING_INTERVAL`] and [`PING_TIMEOUT`] together.
//!
//! Times are nanoseconds of a monotonic clock.
use vstd::prelude::*;

verus! {

/// Time between two pings.
pub const PING_INTERVAL: u64 = 20_000_000_000;

/// Grace that a client has to answer a ping.
pub const PING_TIMEOUT: u64 = 20_000_000_000;

/// How a request is answered.
#[derive(Clone, Copy, Debug, PartialEq, Eq, Structural)]
pub enum Route {
    /// Refused: the request comes from a page that is not local.
    Forbidden,
    /// Promoted to a WebSocket connection.
    Upgrade,
    /// Answered over HTTP.
    Http,
}

/// Decides a request. `origin_is_loopback` says of the request's origin whether
/// it is local, and is `None` where the request names no origin; `upgrade` says
/// whether the request asks for a WebSocket.
pub fn dispatch(origin_is_loopback: Option<bool>, upgrade: bool) -> (r: Route)
    ensures
        r == Route::Forbidden <==> origin_is_loopback == Some(false),
        r == Route::Upgrade <==> origin_is_loopback != Some(false) && upgrade,
        r == Route::Http <==> origin_is_loopback != Some(false) && !upgrade,
{
    if let Some(loopback) = origin_is_loopback {
        if !loopback {
            return Route::Forbidden;
        }
    }
    if upgrade {
        Route::Upgrade
    } else {
        Route::Http
    }
}

/// What a connection waits for.
pub enum Event {
    /// The fan-out delivered a text for every client.
    Broadcast(String),
    /// The connection fell behind the fan-out and missed this many texts.
    Lagged(u64),
    /// The fan-out is gone.
    FanoutClosed,
    /// The client sent a text.
    Text(String),
    /// The client sent a close frame.
    CloseFrame,
    /// The client sent any other frame.
    OtherFrame,
    /// Receiving failed.
    ReceiveFailed,
    /// The client closed the stream.
    StreamEnded,
    /// It is time for the next ping.
    PingDue,
    /// Sending the last text or ping failed.
    SendFailed,
}

/// What a connection does about an event.
pub enum Action {
    /// Wait for the next event.
    Wait,
    /// Send the text to the client.
    Send(String),
    /// Hand the client's text to the dispatcher.
    Dispatch(String),
    /// Send a ping.
    Ping,
    /// End the connection.
    Close,
}

/// Whether `event` shows that the client is alive.
pub open spec fn is_activity(event: Event) -> bool {
    event is Text || event is OtherFrame
}

/// Whether `event` ends a connection whatever came before it.
pub open spec fn is_final(event: Event) -> bool {
    ||| event is FanoutClosed
    ||| event is CloseFrame
    ||| event is ReceiveFailed
    ||| event is StreamEnded
    ||| event is SendFailed
}

/// The time of the client's last sign of life, after `event` at `now`.
pub open spec fn activity_after(last: u64, event: Event, now: u64) -> u64 {
    if is_activity(event) {
        now
    } else {
        last
    }
}

/// Whether a client last heard from at `last` has been silent for too long.
pub open spec fn is_overdue(last: u64, now: u64) -> bool {
    now - last > PING_INTERVAL + PING_TIMEOUT
}

/// What a connection whose client was last heard from at `last` does about
/// `event` at `now`.
pub open spec fn action_of(last: u64, event: Event, now: u64) -> Action {
    match event {
        Event::Broadcast(text) => Action::Send(text),
        Event::Lagged(_) => Action::Wait,
        Event::Text(text) => Action::Dispatch(text),
        Event::OtherFrame => Action::Wait,
        Event::PingDue => if is_overdue(last, now) {
            Action::Close
        } else {
            Action::Ping
        },
        _ => Action::Close,
    }
}

/// One client's connection.
pub struct Connection {
    /// When the client was last heard from.
    pub last_activity: u64,
}

impl Connection {
    /// A connection that was opened at `now`.
    pub fn opened(now: u64) -> (r: Self)
        ensures
            r.last_activity == now,
    {
        Connection { last_activity: now }
    }

    /// Takes in `event`, which came at `now`, and says what to do about it.
    pub fn on_event(&mut self, event: Event, now: u64) -> (r: Action)
        ensures
            r == action_of(old(self).last_activity, event, now),
            final(self).last_activity == activity_after(old(self).last_activity, event, now),
    {
        match event {
            Event::Broadcast(text) => Action::Send(text),
            Event::Lagged(_) => Action::Wait,
            Event::FanoutClosed => Action::Close,
            Event::Text(text) => {
                self.last_activity = now;
                Action::Dispatch(text)
            },
            Event::CloseFrame => Action::Close,
            Event::OtherFrame => {
                self.last_activity = now;
                Action::Wait
            },
            Event::ReceiveFailed => Action::Close,
            Event::StreamEnded => Action::Close,
            Event::PingDue => if now > self.last_activity && now - self.last_activity
                > PING_INTERVAL + PING_TIMEOUT {
                Action::Close
            } else {
                Action::Ping
            },
            Event::SendFailed => Action::Close,
        }
    }
}

/// An event with the time it came at.
pub struct Timed {
    pub event: Event,
    pub at: u64,
}

/// Whether the connection is still open after all of `events`.
pub open spec fn stays_open(last: u64, events: Seq<Timed>) -> bool
    decreases events.len(),
{
    events.len() == 0 || {
        let first = events[0];
        &&& !(action_of(last, first.event, first.at) is Close)
        &&& stays_open(activity_after(last, first.event, first.at), events.drop_first())
    }
}

/// Broadcast-only: whatever the state of the connection, the only text it sends
/// is the text that the fan-out just delivered to every client.
pub proof fn only_broadcasts_are_sent(last: u64, event: Event, now: u64, text: String)
    requires
        action_of(last, event, now) == Action::Send(text),
    ensures
        event == Event::Broadcast(text),
{
}

/// A client that stays silent is dropped: if nothing comes from it before a
/// ping that is due more than the interval and the grace after its last sign of
/// life, the connection does not outlast that ping.
pub proof fn silent_client_is_dropped(last: u64, events: Seq<Timed>, k: int)
    requires
        0 <= k < events.len(),
        events[k].event is PingDue,
        is_overdue(last, events[k].at),
        forall|j: int| 0 <= j < k ==> !is_activity(#[trigger] events[j].event),
    ensures
        !stays_open(last, events),
    decreases k,
{
    if k > 0 {
        let rest = events.drop_first();
        assert(rest[k - 1] == events[k]);
        assert forall|j: int| 0 <= j < k - 1 implies !is_activity(#[trigger] rest[j].event) by {
            assert(rest[j] == events[j + 1]);
        }
        assert(!is_activity(events[0].event));
        silent_client_is_dropped(last, rest, k - 1);
    }
}

/// A client that keeps answering is kept: as long as nothing ends the
/// connection and every ping that is due finds a sign of life, or the opening
/// of the connection, no older than the interval and the grace together, the
/// connection stays open. Falling behind the fan-out does not end it.
pub proof fn active_client_is_kept(last: u64, events: Seq<Timed>)
    requires
        forall|k: int| 0 <= k < events.len() ==> !is_final(#[trigger] events[k].event),
        forall|k: int| 0 <= k < events.len() ==> last <= #[trigger] events[k].at,
        forall|j: int, k: int|
            0 <= j <= k < events.len() ==> #[trigger] events[j].at <= #[trigger] events[k].at,
        forall|k: int| #![trigger events[k]]
            0 <= k < events.len() && events[k].event is PingDue ==> {
                ||| !is_overdue(last, events[k].at)
                ||| exists|j: int|
                    0 <= j < k && is_activity(#[trigger] events[j].event) && !is_overdue(
                        events[j].at,
                        events[k].at,
                    )
            },
    ensures
        stays_open(last, events),
    decreases events.len(),
{
    if events.len() > 0 {
        let first = events[0];
        let rest = events.drop_first();
        let next = activity_after(last, first.event, first.at);
        assert(!is_final(first.event));
        assert forall|k: int| 0 <= k < rest.len() implies !is_final(#[trigger] rest[k].event) by {
            assert(rest[k] == events[k + 1]);
        }
        assert forall|j: int, k: int| 0 <= j <= k < rest.len() implies #[trigger] rest[j].at
            <= #[trigger] rest[k].at by {
            assert(rest[j] == events[j + 1]);
            assert(rest[k] == events[k + 1]);
        }
        assert forall|k: int| 0 <= k < rest.len() implies next <= #[trigger] rest[k].at by {
            assert(rest[k] == events[k + 1]);
            assert(events[0].at <= events[k + 1].at);
        }
        assert forall|k: int| #![trigger rest[k]] 0 <= k < rest.len() && rest[k].event is PingDue implies {
            ||| !is_overdue(next, rest[k].at)
            ||| exists|j: int|
                0 <= j < k && is_activity(#[trigger] rest[j].event) && !is_overdue(
                    rest[j].at,
                    rest[k].at,
                )
        } by {
            assert(rest[k] == events[k + 1]);
            if is_overdue(last, events[k + 1].at) {
                let j = choose|j: int|
                    0 <= j < k + 1 && is_activity(#[trigger] events[j].event) && !is_overdue(
                        events[j].at,
                        events[k + 1].at,
                    );
                if j > 0 {
                    assert(rest[j - 1] == events[j]);
                }
            }
        }
        active_client_is_kept(next, rest);
    }
}

/// Every broadcast is sent, whatever the time and however long the client has
/// been silent, and every text of the client is handed to the dispatcher.
/// Falling behind the fan-out, and frames that hold no text, are passed over.
pub proof fn every_broadcast_is_sent(last: u64, text: String, missed: u64, now: u64)
    ensures
        action_of(last, Event::Broadcast(text), now) == Action::Send(text),
        action_of(last, Event::Text(text), now) == Action::Dispatch(text),
        action_of(last, Event::Lagged(missed), now) is Wait,
        action_of(last, Event::OtherFrame, now) is Wait,
{
}

/// What a connection whose client was last heard from at `last` sends and
/// dispatches over `events`, in order.
pub open spec fn traffic(last: u64, events: Seq<Timed>) -> (Seq<String>, Seq<String>)
    decreases events.len(),
{
    if events.len() == 0 {
        (Seq::empty(), Seq::empty())
    } else {
        let first = events[0];
        let (sent, dispatched) = traffic(
            activity_after(last, first.event, first.at),
            events.drop_first(),
        );
        match action_of(last, first.event, first.at) {
            Action::Send(text) => (seq![text] + sent, dispatched),
            Action::Dispatch(text) => (sent, seq![text] + dispatched),
            _ => (sent, dispatched),
        }
    }
}

/// The texts that the fan-out delivered among `events`, in order.
pub open spec fn broadcasts(events: Seq<Timed>) -> Seq<String>
    decreases events.len(),
{
    if events.len() == 0 {
        Seq::empty()
    } else {
        match events[0].event {
            Event::Broadcast(text) => seq![text] + broadcasts(events.drop_first()),
            _ => broadcasts(events.drop_first()),
        }
    }
}

/// The texts that the client sent among `events`, in order.
pub open spec fn client_texts(events: Seq<Timed>) -> Seq<String>
    decreases events.len(),
{
    if events.len() == 0 {
        Seq::empty()
    } else {
        match events[0].event {
            Event::Text(text) => seq![text] + client_texts(events.drop_first()),
            _ => client_texts(events.drop_first()),
        }
    }
}

/// Nothing is lost, added or reordered on the way: over any course of events,
/// the texts sent are exactly those of the fan-out, and the texts dispatched
/// exactly those of the client.
pub proof fn traffic_is_passed_on(last: u64, events: Seq<Timed>)
    ensures
        traffic(last, events).0 == broadcasts(events),
        traffic(last, events).1 == client_texts(events),
    decreases events.len(),
{
    if events.len() > 0 {
        let first = events[0];
        traffic_is_passed_on(activity_after(last, first.event, first.at), events.drop_first());
    }
}

/// Every ping that is due is sent, unless more than forty seconds have passed
/// since the client was last heard from: then, and at every end of the stream,
/// the connection is closed, and at no other event.
pub proof fn connection_ends_with_its_client(last: u64, event: Event, now: u64)
    ensures
        action_of(last, event, now) is Ping <==> event is PingDue && now - last
            <= 40_000_000_000,
        action_of(last, event, now) is Close <==> {
            ||| event is PingDue && now - last > 40_000_000_000
            ||| event is FanoutClosed
            ||| event is CloseFrame
            ||| event is ReceiveFailed
            ||| event is StreamEnded
            ||| event is SendFailed
        },
{
}

/// Only what comes from the client is a sign of life: a text or any other frame
/// at `now` makes `now` the last one, and nothing that the bridge does itself
/// moves it.
pub proof fn only_the_client_shows_life(last: u64, event: Event, now: u64)
    ensures
        event is Text || event is OtherFrame ==> activity_after(last, event, now) == now,
        !(event is Text || event is OtherFrame) ==> activity_after(last, event, now) == last,
{
}

} // verus!
