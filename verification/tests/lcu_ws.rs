use chud::lcu_ws::{
    keep_streaming, on_frame, on_socket, read_event, read_frame, subscribe_frame, subscriptions,
    websocket_url, Acceptance, Action, Event, Feed, Frame, Incoming, Payload, ReadyCheck,
    SocketEvent, RECEIVE_WAIT,
};

fn message(uri: &str, data: &str) -> String {
    format!("[8, \"event\", {{\"uri\": \"{}\", \"data\": {}}}]", uri, data)
}

fn text(s: &str) -> SocketEvent {
    SocketEvent::Text(s.to_string())
}

const PHASE: &str = "/lol-gameflow/v1/gameflow-phase";
const SESSION: &str = "/lol-champ-select/v1/session";
const HOVERED: &str = "/lol-champ-select/v1/hovered-champion-id";

#[test]
fn rest_address_becomes_a_websocket_address() {
    assert_eq!(websocket_url("https://127.0.0.1:2999"), "wss://127.0.0.1:2999");
    assert_eq!(websocket_url("http://127.0.0.1"), "http://127.0.0.1");
    assert_eq!(websocket_url("https://https"), "wss://https");
}

#[test]
fn three_events_are_subscribed_to() {
    assert_eq!(subscribe_frame("X"), "[5, \"X\"]");
    assert_eq!(
        subscriptions(),
        vec![
            "[5, \"OnJsonApiEvent_lol-gameflow_v1_gameflow-phase\"]".to_string(),
            "[5, \"OnJsonApiEvent_lol-champ-select_v1_session\"]".to_string(),
            "[5, \"OnJsonApiEvent_lol-champ-select_v1_hovered-champion-id\"]".to_string(),
        ]
    );
}

#[test]
fn wait_is_one_second() {
    assert_eq!(RECEIVE_WAIT, 1_000_000_000);
}

#[test]
fn session_keeps_its_fractions() {
    let doc = "{\"a\": 0.5, \"b\": -0.0}";
    match on_socket(text(&message(SESSION, doc))) {
        Incoming::Session(v) => {
            assert_eq!(v, serde_json::from_str::<serde_json::Value>(doc).unwrap());
            assert_eq!(v.get("a").unwrap().as_f64(), Some(0.5));
        }
        _ => panic!(),
    }
}

#[test]
fn stream_goes_on_while_it_is_the_current_one() {
    assert!(keep_streaming(true, 3, 3));
    assert!(!keep_streaming(false, 3, 3));
    assert!(!keep_streaming(true, 4, 3));
}

#[test]
fn frame_is_read_from_its_third_element() {
    let f = read_frame("[8, \"e\", {\"uri\": \"/x\", \"data\": 12}]").unwrap();
    assert_eq!(f.uri, Some("/x".to_string()));
    let d = f.data.unwrap();
    assert_eq!(d.text, None);
    assert_eq!(d.integer, Some(12));
    assert_eq!(d.raw, serde_json::Value::from(12));
    let f = read_frame("[8, \"e\", {\"uri\": 3, \"data\": \"7\"}]").unwrap();
    assert_eq!(f.uri, None);
    assert_eq!(f.data.unwrap().text, Some("7".to_string()));
    let f = read_frame("[8, \"e\", 5]").unwrap();
    assert!(f.uri.is_none() && f.data.is_none());
}

#[test]
fn text_without_an_event_is_no_frame() {
    for s in vec!["", "{", "[8, \"e\"]", "{\"2\": {}}", "null", "[8, \"e\", {}] x"] {
        assert!(read_frame(s).is_none(), "{}", s);
    }
}

#[test]
fn numbers_out_of_range_are_no_integers() {
    let integer = |data: &str| read_frame(&message("/x", data)).unwrap().data.unwrap().integer;
    assert_eq!(integer("-5"), Some(-5));
    assert_eq!(integer("9223372036854775807"), Some(i64::MAX));
    assert_eq!(integer("9223372036854775808"), None);
    assert_eq!(integer("5.0"), None);
    assert_eq!(integer("true"), None);
}

#[test]
fn event_is_read_out_of_a_document() {
    let doc: serde_json::Value = serde_json::from_str("[0, 1, {\"data\": null}]").unwrap();
    let f = read_event(&doc).unwrap();
    assert!(f.uri.is_none());
    assert_eq!(f.data.unwrap().raw, serde_json::Value::Null);
    assert!(read_event(&serde_json::Value::Null).is_none());
}

fn frame(uri: &str, text: Option<&str>, integer: Option<i64>) -> Frame {
    Frame {
        uri: Some(uri.to_string()),
        data: Some(Payload {
            text: text.map(|t| t.to_string()),
            integer,
            raw: serde_json::Value::from(1),
        }),
    }
}

#[test]
fn frames_are_told_apart_by_their_uri() {
    match on_frame(frame(PHASE, Some("Lobby"), None)) {
        Incoming::Phase(p) => assert_eq!(p, "Lobby"),
        _ => panic!(),
    }
    assert!(matches!(on_frame(frame(PHASE, None, Some(1))), Incoming::Nothing));
    assert!(matches!(on_frame(Frame { uri: Some(PHASE.to_string()), data: None }), Incoming::Nothing));
    match on_frame(frame(SESSION, None, None)) {
        Incoming::Session(doc) => assert_eq!(doc, serde_json::Value::from(1)),
        _ => panic!(),
    }
    assert!(matches!(on_frame(Frame { uri: Some(SESSION.to_string()), data: None }), Incoming::Nothing));
    assert!(matches!(on_frame(frame("/other", Some("x"), None)), Incoming::Nothing));
    assert!(matches!(on_frame(Frame { uri: None, data: None }), Incoming::Nothing));
}

#[test]
fn hovered_champion_is_an_integer_or_writes_one() {
    let id = |text: Option<&str>, integer: Option<i64>| match on_frame(frame(HOVERED, text, integer)) {
        Incoming::HoveredChampion(id) => id,
        _ => panic!(),
    };
    assert_eq!(id(None, Some(266)), Some(266));
    assert_eq!(id(Some("266"), None), Some(266));
    assert_eq!(id(Some("Aatrox"), None), None);
    assert_eq!(id(None, None), None);
    match on_frame(Frame { uri: Some(HOVERED.to_string()), data: None }) {
        Incoming::HoveredChampion(id) => assert_eq!(id, None),
        _ => panic!(),
    }
}

#[test]
fn socket_events_are_told_apart() {
    assert!(matches!(on_socket(SocketEvent::TimedOut), Incoming::Nothing));
    assert!(matches!(on_socket(SocketEvent::Other), Incoming::Nothing));
    assert!(matches!(on_socket(SocketEvent::Closed), Incoming::Lost));
    assert!(matches!(on_socket(SocketEvent::Failed), Incoming::Lost));
    assert!(matches!(on_socket(text("no json")), Incoming::Nothing));
    assert!(matches!(on_socket(text("[1]")), Incoming::Nothing));
    match on_socket(text(&message(HOVERED, "\"-3\""))) {
        Incoming::HoveredChampion(id) => assert_eq!(id, Some(-3)),
        _ => panic!(),
    }
}

#[test]
fn ready_check_is_counted_once() {
    let mut r = ReadyCheck::new();
    assert!(r.phase_entered("ReadyCheck"));
    assert_eq!(r.answered(true), Acceptance::Record);
    assert!(!r.phase_entered("ReadyCheck"));
    assert_eq!(r.answered(true), Acceptance::AlreadyRecorded);
    assert!(!r.phase_entered("ChampSelect"));
    assert!(!r.handled);
    assert!(r.phase_entered("ReadyCheck"));
    assert_eq!(r.answered(true), Acceptance::Record);
}

#[test]
fn failed_accept_is_tried_again() {
    let mut r = ReadyCheck::new();
    assert!(r.phase_entered("ReadyCheck"));
    assert_eq!(r.answered(false), Acceptance::Failed);
    assert!(r.phase_entered("ReadyCheck"));
    assert_eq!(r.answered(true), Acceptance::Record);
    assert_eq!(r.answered(false), Acceptance::Failed);
    assert!(r.handled);
}

#[test]
fn feed_stops_with_its_stream() {
    let mut ready = ReadyCheck::new();
    let mut feed = Feed::new(2);
    let on = Event::Checked { running: true, current_generation: 2 };
    assert!(matches!(feed.on_event(&mut ready, on), Action::Receive));
    let off = Event::Checked { running: false, current_generation: 2 };
    assert!(matches!(feed.on_event(&mut ready, off), Action::Exit));
    let newer = Event::Checked { running: true, current_generation: 3 };
    assert!(matches!(feed.on_event(&mut ready, newer), Action::Exit));
    let lost = Event::Received(SocketEvent::Closed);
    assert!(matches!(feed.on_event(&mut ready, lost), Action::Exit));
    let idle = Event::Received(SocketEvent::TimedOut);
    assert!(matches!(feed.on_event(&mut ready, idle), Action::Check));
    assert!(matches!(feed.on_event(&mut ready, Event::Done), Action::Check));
    assert!(matches!(feed.on_event(&mut ready, Event::PhasePublished), Action::Check));
    assert!(matches!(feed.on_event(&mut ready, Event::Answered(false)), Action::Check));
}

fn announced(action: Action) -> (String, Option<Acceptance>) {
    match action {
        Action::Announce { phase, acceptance } => (phase, acceptance),
        _ => panic!(),
    }
}

#[test]
fn feed_accepts_a_ready_check_and_announces_it() {
    let mut ready = ReadyCheck::new();
    let mut feed = Feed::new(2);
    let check = message(PHASE, "\"ReadyCheck\"");
    match feed.on_event(&mut ready, Event::Received(text(&check))) {
        Action::PublishPhase(p) => assert_eq!(p, "ReadyCheck"),
        _ => panic!(),
    }
    assert!(matches!(feed.on_event(&mut ready, Event::PhasePublished), Action::Accept));
    assert_eq!(
        announced(feed.on_event(&mut ready, Event::Answered(true))),
        ("ReadyCheck".to_string(), Some(Acceptance::Record))
    );
    feed.on_event(&mut ready, Event::Received(text(&check)));
    assert_eq!(
        announced(feed.on_event(&mut ready, Event::PhasePublished)),
        ("ReadyCheck".to_string(), None)
    );
    feed.on_event(&mut ready, Event::Received(text(&message(PHASE, "\"Lobby\""))));
    assert_eq!(
        announced(feed.on_event(&mut ready, Event::PhasePublished)),
        ("Lobby".to_string(), None)
    );
    assert!(!ready.handled);
}

#[test]
fn feed_does_not_count_what_the_poller_counted() {
    let mut ready = ReadyCheck::new();
    let mut feed = Feed::new(2);
    feed.on_event(&mut ready, Event::Received(text(&message(PHASE, "\"ReadyCheck\""))));
    assert!(matches!(feed.on_event(&mut ready, Event::PhasePublished), Action::Accept));
    assert_eq!(ready.answered(true), Acceptance::Record);
    assert_eq!(
        announced(feed.on_event(&mut ready, Event::Answered(true))),
        ("ReadyCheck".to_string(), Some(Acceptance::AlreadyRecorded))
    );
}

#[test]
fn feed_forwards_sessions_and_hovers() {
    let mut ready = ReadyCheck::new();
    let mut feed = Feed::new(2);
    match feed.on_event(&mut ready, Event::Received(text(&message(SESSION, "{\"a\": 1}")))) {
        Action::DecodeSession(doc) => {
            assert_eq!(doc, serde_json::from_str::<serde_json::Value>("{\"a\": 1}").unwrap())
        }
        _ => panic!(),
    }
    assert!(matches!(
        feed.on_event(&mut ready, Event::SessionDecoded(true)),
        Action::ForwardSession
    ));
    assert!(matches!(feed.on_event(&mut ready, Event::SessionDecoded(false)), Action::Check));
    match feed.on_event(&mut ready, Event::Received(text(&message(HOVERED, "103")))) {
        Action::ForwardHovered(id) => assert_eq!(id, Some(103)),
        _ => panic!(),
    }
    match feed.on_event(&mut ready, Event::Received(text(&message(HOVERED, "null")))) {
        Action::ForwardHovered(id) => assert_eq!(id, None),
        _ => panic!(),
    }
}

#[test]
fn ignored_messages_leave_the_feed_alone() {
    let mut ready = ReadyCheck::new();
    let mut feed = Feed::new(2);
    feed.on_event(&mut ready, Event::Received(text(&message(PHASE, "\"ReadyCheck\""))));
    for m in vec![
        SocketEvent::TimedOut,
        SocketEvent::Other,
        text("no json"),
        text("[8, \"e\"]"),
        text("[8, \"e\", {\"data\": 1}]"),
        text(&message("/other", "1")),
        text(&message(PHASE, "1")),
        text("[8, \"e\", {\"uri\": \"/lol-champ-select/v1/session\"}]"),
    ] {
        assert!(matches!(feed.on_event(&mut ready, Event::Received(m)), Action::Check));
        assert_eq!(feed.phase, Some("ReadyCheck".to_string()));
        assert!(!ready.handled);
    }
    assert!(matches!(feed.on_event(&mut ready, Event::PhasePublished), Action::Accept));
}
