use chud::bridge::{dispatch, Action, Connection, Event, Route, PING_INTERVAL, PING_TIMEOUT};

const SECOND: u64 = 1_000_000_000;

#[test]
fn ping_times_are_twenty_seconds() {
    assert_eq!(PING_INTERVAL, 20 * SECOND);
    assert_eq!(PING_TIMEOUT, 20 * SECOND);
}

#[test]
fn foreign_origin_is_refused() {
    assert_eq!(dispatch(Some(false), true), Route::Forbidden);
    assert_eq!(dispatch(Some(false), false), Route::Forbidden);
}

#[test]
fn local_request_is_upgraded_or_answered() {
    assert_eq!(dispatch(Some(true), true), Route::Upgrade);
    assert_eq!(dispatch(Some(true), false), Route::Http);
    assert_eq!(dispatch(None, true), Route::Upgrade);
    assert_eq!(dispatch(None, false), Route::Http);
}

#[test]
fn broadcast_is_sent_to_the_client() {
    let mut c = Connection::opened(0);
    match c.on_event(Event::Broadcast("hi".to_string()), SECOND) {
        Action::Send(text) => assert_eq!(text, "hi"),
        _ => panic!(),
    }
    assert_eq!(c.last_activity, 0);
}

#[test]
fn client_text_is_dispatched_and_counts_as_activity() {
    let mut c = Connection::opened(0);
    match c.on_event(Event::Text("do".to_string()), 5 * SECOND) {
        Action::Dispatch(text) => assert_eq!(text, "do"),
        _ => panic!(),
    }
    assert_eq!(c.last_activity, 5 * SECOND);
    assert!(matches!(c.on_event(Event::OtherFrame, 6 * SECOND), Action::Wait));
    assert_eq!(c.last_activity, 6 * SECOND);
}

#[test]
fn lagging_does_not_close() {
    let mut c = Connection::opened(0);
    assert!(matches!(c.on_event(Event::Lagged(9), SECOND), Action::Wait));
    assert_eq!(c.last_activity, 0);
}

#[test]
fn ends_close_the_connection() {
    for event in vec![
        Event::FanoutClosed,
        Event::CloseFrame,
        Event::ReceiveFailed,
        Event::StreamEnded,
        Event::SendFailed,
    ] {
        let mut c = Connection::opened(0);
        assert!(matches!(c.on_event(event, SECOND), Action::Close));
    }
}

#[test]
fn silent_client_is_closed_after_forty_seconds() {
    let mut c = Connection::opened(3);
    assert!(matches!(c.on_event(Event::PingDue, 20 * SECOND), Action::Ping));
    assert!(matches!(c.on_event(Event::PingDue, 40 * SECOND + 3), Action::Ping));
    assert!(matches!(c.on_event(Event::PingDue, 40 * SECOND + 4), Action::Close));
}

#[test]
fn answering_client_is_kept() {
    let mut c = Connection::opened(0);
    for i in 1..100u64 {
        assert!(matches!(c.on_event(Event::OtherFrame, (20 * i - 1) * SECOND), Action::Wait));
        assert!(matches!(c.on_event(Event::PingDue, 20 * i * SECOND), Action::Ping));
    }
}

#[test]
fn clock_before_the_last_activity_counts_as_no_silence() {
    let mut c = Connection::opened(u64::MAX);
    assert!(matches!(c.on_event(Event::PingDue, 0), Action::Ping));
}
