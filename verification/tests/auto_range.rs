use chud::auto_range::{
    on_first_key, Action, ChatListener, Event, HoldLoop, Key, Params, Start, Writes, IDLE_SLEEP,
    MIN_TICK,
};

const MS: u64 = 1_000_000;

fn params(key: &str, refresh_ms: u64, tick_ms: u64) -> Params {
    Params { key: key.to_string(), refresh_every: refresh_ms * MS, tick: tick_ms * MS }
}

fn armed(key: &str) -> HoldLoop {
    HoldLoop::new(7, 1, params(key, 1000, 20), 0)
}

fn start(config_now: u64) -> Event {
    Event::RoundStarted { running: true, current_generation: 7, config_now }
}

#[test]
fn enter_toggles_the_chat_once_per_press() {
    let mut l = ChatListener::new();
    assert_eq!(l.on_key(Key::EnterPressed, true, true, false), Some(true));
    assert_eq!(l.on_key(Key::EnterPressed, true, true, true), None);
    assert_eq!(l.on_key(Key::EnterPressed, true, true, true), None);
    assert_eq!(l.on_key(Key::EnterReleased, true, true, true), None);
    assert_eq!(l.on_key(Key::EnterPressed, true, true, true), Some(false));
}

#[test]
fn enter_outside_the_game_does_not_toggle() {
    let mut l = ChatListener::new();
    assert_eq!(l.on_key(Key::EnterPressed, true, false, false), None);
    assert!(l.enter_down);
    assert_eq!(l.on_key(Key::EnterPressed, true, true, false), None);
}

#[test]
fn escape_closes_the_chat() {
    let mut l = ChatListener::new();
    assert_eq!(l.on_key(Key::EscapePressed, true, true, true), Some(false));
    assert_eq!(l.on_key(Key::EscapePressed, true, true, false), Some(false));
    assert_eq!(l.on_key(Key::EscapePressed, true, false, true), None);
    assert_eq!(l.on_key(Key::Other, true, true, true), None);
}

#[test]
fn disarmed_listener_only_notes_releases() {
    let mut l = ChatListener::new();
    assert_eq!(l.on_key(Key::EnterPressed, false, true, false), None);
    assert!(!l.enter_down);
    assert_eq!(l.on_key(Key::EscapePressed, false, true, true), None);
    l.on_key(Key::EnterPressed, true, true, false);
    assert!(l.enter_down);
    assert_eq!(l.on_key(Key::EnterReleased, false, true, true), None);
    assert!(!l.enter_down);
}

#[test]
fn times_of_the_loop() {
    assert_eq!(MIN_TICK, 10 * MS);
    assert_eq!(IDLE_SLEEP, 250 * MS);
}

#[test]
fn loop_ends_when_disarmed_or_superseded() {
    let mut h = armed("c");
    assert!(matches!(
        h.on_event(Event::RoundStarted { running: false, current_generation: 7, config_now: 1 }),
        Action::Exit
    ));
    assert!(matches!(
        h.on_event(Event::RoundStarted { running: true, current_generation: 8, config_now: 1 }),
        Action::Exit
    ));
    assert!(matches!(h.on_event(start(1)), Action::ProbeFocus));
}

#[test]
fn settings_are_read_when_they_change() {
    let mut h = armed("c");
    assert!(matches!(h.on_event(start(2)), Action::ReadParams));
    assert!(matches!(h.on_event(Event::ParamsRead(params("c", 500, 30))), Action::ProbeFocus));
    assert_eq!(h.refresh_every, 500 * MS);
    assert_eq!(h.tick, 30 * MS);
    assert!(matches!(h.on_event(start(2)), Action::ProbeFocus));
}

#[test]
fn changed_key_is_set_up_and_refreshed_at_once() {
    let mut h = armed("c");
    h.on_event(start(2));
    match h.on_event(Event::ParamsRead(params("v", 1000, 20))) {
        Action::ChangeKey(key) => assert_eq!(key, "v"),
        _ => panic!(),
    }
    assert_eq!(h.key, "c");
    let ready = Event::KeyReady { key: "v".to_string(), now: 5 * MS };
    assert!(matches!(h.on_event(ready), Action::ProbeFocus));
    assert_eq!(h.key, "v");
    h.on_event(Event::FocusProbed(true));
    h.on_event(Event::Published { blocked: false, chat_open: false });
    assert!(matches!(h.on_event(Event::Pressed { now: 5 * MS }), Action::Refresh));
}

#[test]
fn rejected_key_leaves_the_old_one() {
    let mut h = armed("c");
    h.on_event(start(2));
    h.on_event(Event::ParamsRead(params("?", 1000, 20)));
    assert!(matches!(h.on_event(Event::KeyRejected), Action::ProbeFocus));
    assert_eq!(h.key, "c");
    assert!(matches!(h.on_event(start(2)), Action::ProbeFocus));
}

#[test]
fn key_is_held_only_while_nothing_speaks_against_it() {
    for focused in vec![true, false] {
        for blocked in vec![true, false] {
            for chat_open in vec![true, false] {
                let mut h = armed("c");
                match h.on_event(Event::FocusProbed(focused)) {
                    Action::Publish { focused: f, close_chat } => {
                        assert_eq!(f, focused);
                        assert_eq!(close_chat, !focused);
                    }
                    _ => panic!(),
                }
                let action = h.on_event(Event::Published { blocked, chat_open });
                if focused && !blocked && !chat_open {
                    assert!(matches!(action, Action::Press));
                } else {
                    assert!(matches!(action, Action::Release));
                }
            }
        }
    }
}

#[test]
fn held_key_is_refreshed_when_the_interval_is_over() {
    let mut h = armed("c");
    h.on_event(Event::FocusProbed(true));
    assert!(matches!(h.on_event(Event::Pressed { now: 1000 * MS - 1 }), Action::Sleep(_)));
    assert!(matches!(h.on_event(Event::Pressed { now: 1000 * MS }), Action::Refresh));
    match h.on_event(Event::Refreshed { now: 1001 * MS }) {
        Action::Sleep(t) => assert_eq!(t, 20 * MS),
        _ => panic!(),
    }
    assert!(matches!(h.on_event(Event::Pressed { now: 2001 * MS - 1 }), Action::Sleep(_)));
    assert!(matches!(h.on_event(Event::Pressed { now: 2001 * MS }), Action::Refresh));
}

#[test]
fn interval_runs_over_whole_rounds() {
    let mut h = armed("c");
    let mut refreshed_at = 0;
    for i in 0..500u64 {
        let now = i * 20 * MS;
        assert!(matches!(h.on_event(start(1)), Action::ProbeFocus));
        h.on_event(Event::FocusProbed(true));
        assert!(matches!(
            h.on_event(Event::Published { blocked: false, chat_open: false }),
            Action::Press
        ));
        if now - refreshed_at >= 1000 * MS {
            assert!(matches!(h.on_event(Event::Pressed { now }), Action::Refresh));
            assert!(matches!(h.on_event(Event::Refreshed { now }), Action::Sleep(_)));
            refreshed_at = now;
        } else {
            assert!(matches!(h.on_event(Event::Pressed { now }), Action::Sleep(_)));
        }
    }
    assert_eq!(refreshed_at, 9000 * MS);
}

#[test]
fn first_key_decides_whether_the_loop_runs() {
    assert_eq!(on_first_key(true), Start::Run);
    assert_eq!(on_first_key(false), Start::Disarm);
}

const NOTHING: Writes =
    Writes { running: None, game_focused: None, chat_open: None, key_down: None, emit: false };

#[test]
fn superseded_loop_takes_back_the_focus() {
    let mut h = HoldLoop::new(1, 1, params("c", 1000, 20), 0);
    let action =
        h.on_event(Event::RoundStarted { running: true, current_generation: 2, config_now: 1 });
    assert!(matches!(action, Action::Exit));
    assert_eq!(
        action.writes(),
        Writes { game_focused: Some(false), key_down: Some(false), emit: true, ..NOTHING }
    );
}

#[test]
fn actions_write_what_they_say() {
    assert_eq!(
        Action::Publish { focused: true, close_chat: false }.writes(),
        Writes { game_focused: Some(true), ..NOTHING }
    );
    assert_eq!(
        Action::Publish { focused: false, close_chat: true }.writes(),
        Writes { game_focused: Some(false), chat_open: Some(false), ..NOTHING }
    );
    assert_eq!(Action::Press.writes(), Writes { key_down: Some(true), ..NOTHING });
    assert_eq!(Action::Refresh.writes(), Writes { key_down: Some(true), ..NOTHING });
    assert_eq!(Action::Release.writes(), Writes { key_down: Some(false), ..NOTHING });
    assert_eq!(
        Action::ChangeKey("v".to_string()).writes(),
        Writes { key_down: Some(false), ..NOTHING }
    );
    for action in vec![Action::ReadParams, Action::ProbeFocus, Action::Sleep(1)] {
        assert_eq!(action.writes(), NOTHING);
    }
    assert_eq!(Start::Run.writes(), NOTHING);
    assert_eq!(Start::Disarm.writes(), Writes { running: Some(false), emit: true, ..NOTHING });
}

#[test]
fn sleep_depends_on_focus_and_tick() {
    let sleep = |focused: bool, tick_ms: u64| {
        let mut h = HoldLoop::new(7, 1, params("c", 1000, tick_ms), 0);
        h.on_event(Event::FocusProbed(focused));
        match h.on_event(Event::Released) {
            Action::Sleep(t) => t,
            _ => panic!(),
        }
    };
    assert_eq!(sleep(true, 20), 20 * MS);
    assert_eq!(sleep(true, 10), 10 * MS);
    assert_eq!(sleep(true, 0), 10 * MS);
    assert_eq!(sleep(false, 20), 250 * MS);
    assert_eq!(sleep(false, 500), 250 * MS);
}
