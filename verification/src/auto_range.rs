//! Auto-Range: hold the "show range" key while the live game is focused, and
//! refresh it now and then so that the indicator stays drawn.
//!
//! [`ChatListener`] follows the keyboard, so that the key is let go while the
//! player types; [`HoldLoop`] decides in each round of the loop whether the key
//! is held, when it is refreshed and how long to sleep.
//!
//! Times and durations are nanoseconds of a monotonic clock.
use crate::text;
use vstd::prelude::*;

verus! {

/// A keyboard event, as far as the chat is concerned.
#[derive(Clone, Copy, Debug, PartialEq, Eq, Structural)]
pub enum Key {
    EnterPressed,
    EnterReleased,
    EscapePressed,
    Other,
}

/// Whether Enter counts as down after `key`. A release always counts; a press
/// only counts while the tool is armed.
pub open spec fn enter_down_after(down: bool, key: Key, armed: bool) -> bool {
    match key {
        Key::EnterReleased => false,
        Key::EnterPressed => down || armed,
        _ => down,
    }
}

/// What `key` sets the chat to, while the game is focused: Enter toggles it when
/// it goes down, Escape closes it, everything else leaves it alone.
pub open spec fn chat_set_by(down: bool, key: Key, armed: bool, focused: bool, open: bool) -> Option<
    bool,
> {
    if armed && focused && key == Key::EnterPressed && !down {
        Some(!open)
    } else if armed && focused && key == Key::EscapePressed {
        Some(false)
    } else {
        None
    }
}

/// Follows the in-game chat from the keyboard.
pub struct ChatListener {
    /// Enter is down. A key that is held repeats its press; only the first one
    /// toggles the chat.
    pub enter_down: bool,
}

impl ChatListener {
    /// A listener with no key down.
    pub fn new() -> (r: Self)
        ensures
            !r.enter_down,
    {
        ChatListener { enter_down: false }
    }

    /// Takes in a keyboard event and returns what the chat is to be set to,
    /// `None` where it stays as it is. `armed` says whether a tool that cares
    /// about the chat is on, `focused` whether the game has the focus, `open`
    /// whether the chat is open now.
    pub fn on_key(&mut self, key: Key, armed: bool, focused: bool, open: bool) -> (r: Option<bool>)
        ensures
            r == chat_set_by(old(self).enter_down, key, armed, focused, open),
            final(self).enter_down == enter_down_after(old(self).enter_down, key, armed),
    {
        if key == Key::EnterReleased {
            self.enter_down = false;
        }
        if !armed {
            return None;
        }
        match key {
            Key::EnterPressed => {
                let first = !self.enter_down;
                self.enter_down = true;
                if first && focused {
                    Some(!open)
                } else {
                    None
                }
            },
            Key::EscapePressed => if focused {
                Some(false)
            } else {
                None
            },
            _ => None,
        }
    }
}

/// A keyboard event with the state of the tool at that moment.
pub struct KeyStroke {
    pub key: Key,
    pub armed: bool,
    pub focused: bool,
}

/// Whether the chat is open after `stroke`.
pub open spec fn chat_after(down: bool, stroke: KeyStroke, open: bool) -> bool {
    match chat_set_by(down, stroke.key, stroke.armed, stroke.focused, open) {
        Some(set) => set,
        None => open,
    }
}

/// How many of `strokes` toggle the chat: they would open a closed one.
pub open spec fn toggles(down: bool, strokes: Seq<KeyStroke>) -> nat
    decreases strokes.len(),
{
    if strokes.len() == 0 {
        0
    } else {
        let s = strokes[0];
        let first: nat = if chat_set_by(down, s.key, s.armed, s.focused, false) == Some(true) {
            1
        } else {
            0
        };
        first + toggles(enter_down_after(down, s.key, s.armed), strokes.drop_first())
    }
}

/// How many of `strokes` release Enter.
pub open spec fn releases(strokes: Seq<KeyStroke>) -> nat
    decreases strokes.len(),
{
    if strokes.len() == 0 {
        0
    } else {
        let first: nat = if strokes[0].key == Key::EnterReleased {
            1
        } else {
            0
        };
        first + releases(strokes.drop_first())
    }
}

/// Key repeat does not toggle the chat again: between two releases of Enter,
/// however many presses arrive, the chat is toggled at most once.
pub proof fn key_repeat_toggles_once(down: bool, strokes: Seq<KeyStroke>)
    ensures
        toggles(down, strokes) <= releases(strokes) + if down {
            0nat
        } else {
            1nat
        },
    decreases strokes.len(),
{
    if strokes.len() > 0 {
        let s = strokes[0];
        key_repeat_toggles_once(enter_down_after(down, s.key, s.armed), strokes.drop_first());
    }
}

/// While no tool is armed, or the game is not focused, no key changes the chat.
pub proof fn chat_follows_the_game_only(down: bool, stroke: KeyStroke, open: bool)
    requires
        !stroke.armed || !stroke.focused,
    ensures
        chat_after(down, stroke, open) == open,
{
}

/// Pressing Enter twice, released in between, brings the chat back to where it
/// was, whether it was open or closed.
pub proof fn two_presses_restore_the_chat(open: bool)
    ensures
        ({
            let press = KeyStroke { key: Key::EnterPressed, armed: true, focused: true };
            let release = KeyStroke { key: Key::EnterReleased, armed: true, focused: true };
            let down = enter_down_after(false, press.key, true);
            let up = enter_down_after(down, release.key, true);
            let once = chat_after(false, press, open);
            &&& once == !open
            &&& chat_after(up, press, chat_after(down, release, once)) == open
        }),
{
}

/// Shortest sleep between two rounds while the game is focused.
pub const MIN_TICK: u64 = 10_000_000;

/// Sleep between two rounds while the game is not focused.
pub const IDLE_SLEEP: u64 = 250_000_000;

/// The settings of the tool.
pub struct Params {
    /// The key to hold.
    pub key: String,
    /// Time between two refreshes.
    pub refresh_every: u64,
    /// Sleep between two rounds while the game is focused.
    pub tick: u64,
}

/// What the loop hears back from carrying out an [`Action`].
pub enum Event {
    /// A round begins: whether the tool is on, which arming is the current one,
    /// and the version of the settings.
    RoundStarted { running: bool, current_generation: u64, config_now: u64 },
    /// The settings were read.
    ParamsRead(Params),
    /// The new key is set up.
    KeyReady { key: String, now: u64 },
    /// The new key could not be set up; the old one is still in place.
    KeyRejected,
    /// Whether the game has the focus.
    FocusProbed(bool),
    /// The focus was published; whether key presses are blocked and whether the
    /// chat is open.
    Published { blocked: bool, chat_open: bool },
    /// The key is down.
    Pressed { now: u64 },
    /// The key was refreshed.
    Refreshed { now: u64 },
    /// The key is up.
    Released,
}

/// What the loop has its caller do.
pub enum Action {
    /// Leave the loop: take back the published focus, emit the state, and let go
    /// of the key.
    Exit,
    /// Read the settings.
    ReadParams,
    /// Let go of the held key and set up this one.
    ChangeKey(String),
    /// Find out whether the game has the focus.
    ProbeFocus,
    /// Publish the focus to the chat listener, and mark the chat as closed where
    /// `close_chat` says so.
    Publish { focused: bool, close_chat: bool },
    /// Hold the key down.
    Press,
    /// Refresh the key that is held.
    Refresh,
    /// Let go of the key.
    Release,
    /// Sleep for so long, then begin the next round.
    Sleep(u64),
}

/// What is written outside the loop: a value for each thing that is set, `None`
/// for each that is left alone. Whether key presses are blocked, which arming is
/// the current one, and the settings are never written.
#[derive(Clone, Copy, Debug, PartialEq, Eq)]
pub struct Writes {
    /// Whether the tool is on.
    pub running: Option<bool>,
    /// Whether the game has the focus, as published to the chat listener.
    pub game_focused: Option<bool>,
    /// Whether the chat is open.
    pub chat_open: Option<bool>,
    /// Whether the key is down.
    pub key_down: Option<bool>,
    /// Emit the state, after everything else but the key is written.
    pub emit: bool,
}

/// Nothing is written.
pub open spec fn no_writes() -> Writes {
    Writes { running: None, game_focused: None, chat_open: None, key_down: None, emit: false }
}

impl Action {
    /// What carrying out the action writes.
    pub open spec fn written(self) -> Writes {
        match self {
            Action::Exit => Writes {
                game_focused: Some(false),
                key_down: Some(false),
                emit: true,
                ..no_writes()
            },
            Action::ChangeKey(_) => Writes { key_down: Some(false), ..no_writes() },
            Action::Publish { focused, close_chat } => Writes {
                game_focused: Some(focused),
                chat_open: if close_chat {
                    Some(false)
                } else {
                    None
                },
                ..no_writes()
            },
            Action::Press => Writes { key_down: Some(true), ..no_writes() },
            Action::Refresh => Writes { key_down: Some(true), ..no_writes() },
            Action::Release => Writes { key_down: Some(false), ..no_writes() },
            Action::ReadParams => no_writes(),
            Action::ProbeFocus => no_writes(),
            Action::Sleep(_) => no_writes(),
        }
    }

    /// Says what carrying out the action writes.
    pub fn writes(&self) -> (r: Writes)
        ensures
            r == self.written(),
    {
        let mut w = Writes {
            running: None,
            game_focused: None,
            chat_open: None,
            key_down: None,
            emit: false,
        };
        match self {
            Action::Exit => {
                w.game_focused = Some(false);
                w.key_down = Some(false);
                w.emit = true;
            },
            Action::ChangeKey(_) => {
                w.key_down = Some(false);
            },
            Action::Publish { focused, close_chat } => {
                w.game_focused = Some(*focused);
                if *close_chat {
                    w.chat_open = Some(false);
                }
            },
            Action::Press => {
                w.key_down = Some(true);
            },
            Action::Refresh => {
                w.key_down = Some(true);
            },
            Action::Release => {
                w.key_down = Some(false);
            },
            Action::ReadParams => {},
            Action::ProbeFocus => {},
            Action::Sleep(_) => {},
        }
        w
    }
}

/// Whether the loop that was armed as `generation` goes on: the tool is on and
/// no newer arming has taken over.
pub open spec fn goes_on(running: bool, current_generation: u64, generation: u64) -> bool {
    running && current_generation == generation
}

/// The key is held exactly while the game is focused, nothing blocks key
/// presses and the chat is closed.
pub open spec fn must_hold(focused: bool, blocked: bool, chat_open: bool) -> bool {
    focused && !blocked && !chat_open
}

/// The sleep after a round.
pub open spec fn sleep_after(focused: bool, tick: u64) -> u64 {
    if !focused {
        IDLE_SLEEP
    } else if tick > MIN_TICK {
        tick
    } else {
        MIN_TICK
    }
}

/// Whether a key last refreshed at `last_refresh` is due again.
pub open spec fn is_due(last_refresh: int, refresh_every: u64, now: u64) -> bool {
    now - last_refresh >= refresh_every
}

/// How arming the tool comes out.
#[derive(Clone, Copy, Debug, PartialEq, Eq, Structural)]
pub enum Start {
    /// Run the loop.
    Run,
    /// Switch the tool off again, emit the state, and leave.
    Disarm,
}

/// Decides what follows from trying to set up the key of the settings that the
/// tool was armed with; `ready` says whether that worked. Without a key there is
/// nothing to hold, while a later key that is rejected leaves the old one in
/// place.
pub fn on_first_key(ready: bool) -> (r: Start)
    ensures
        r is Run <==> ready,
        r is Disarm <==> !ready,
{
    if ready {
        Start::Run
    } else {
        Start::Disarm
    }
}

impl Start {
    /// What is written when arming the tool comes out this way.
    pub open spec fn written(self) -> Writes {
        match self {
            Start::Run => no_writes(),
            Start::Disarm => Writes { running: Some(false), emit: true, ..no_writes() },
        }
    }

    /// Says what is written when arming the tool comes out this way.
    pub fn writes(&self) -> (r: Writes)
        ensures
            r == self.written(),
    {
        let off = match self {
            Start::Run => false,
            Start::Disarm => true,
        };
        Writes {
            running: if off {
                Some(false)
            } else {
                None
            },
            game_focused: None,
            chat_open: None,
            key_down: None,
            emit: off,
        }
    }
}

/// The loop that holds the key.
pub struct HoldLoop {
    /// The arming this loop belongs to.
    pub generation: u64,
    /// The version of the settings that were read last.
    pub config_seen: u64,
    /// The key that is held.
    pub key: String,
    /// Time between two refreshes.
    pub refresh_every: u64,
    /// Sleep between two rounds while the game is focused.
    pub tick: u64,
    /// When the key was last refreshed. It may lie before the clock's start.
    pub last_refresh: i128,
    /// The game had the focus when it was last probed.
    pub focused: bool,
}

impl HoldLoop {
    /// The loop after `event`.
    pub open spec fn after(self, event: Event) -> HoldLoop {
        match event {
            Event::RoundStarted { running, current_generation, config_now } => if goes_on(
                running,
                current_generation,
                self.generation,
            ) {
                HoldLoop { config_seen: config_now, ..self }
            } else {
                self
            },
            Event::ParamsRead(params) => HoldLoop {
                refresh_every: params.refresh_every,
                tick: params.tick,
                ..self
            },
            Event::KeyReady { key, now } => HoldLoop {
                key,
                last_refresh: (now - self.refresh_every) as i128,
                ..self
            },
            Event::FocusProbed(focused) => HoldLoop { focused, ..self },
            Event::Refreshed { now } => HoldLoop { last_refresh: now as i128, ..self },
            _ => self,
        }
    }

    /// What the loop does about `event`.
    pub open spec fn reaction(self, event: Event) -> Action {
        match event {
            Event::RoundStarted { running, current_generation, config_now } => if !goes_on(
                running,
                current_generation,
                self.generation,
            ) {
                Action::Exit
            } else if config_now != self.config_seen {
                Action::ReadParams
            } else {
                Action::ProbeFocus
            },
            Event::ParamsRead(params) => if params.key@ != self.key@ {
                Action::ChangeKey(params.key)
            } else {
                Action::ProbeFocus
            },
            Event::KeyReady { .. } => Action::ProbeFocus,
            Event::KeyRejected => Action::ProbeFocus,
            Event::FocusProbed(focused) => Action::Publish { focused, close_chat: !focused },
            Event::Published { blocked, chat_open } => if must_hold(
                self.focused,
                blocked,
                chat_open,
            ) {
                Action::Press
            } else {
                Action::Release
            },
            Event::Pressed { now } => if is_due(
                self.last_refresh as int,
                self.refresh_every,
                now,
            ) {
                Action::Refresh
            } else {
                Action::Sleep(sleep_after(self.focused, self.tick))
            },
            Event::Refreshed { .. } => Action::Sleep(sleep_after(self.focused, self.tick)),
            Event::Released => Action::Sleep(sleep_after(self.focused, self.tick)),
        }
    }

    /// A loop that starts at `now` with the settings `params`.
    pub fn new(generation: u64, config_seen: u64, params: Params, now: u64) -> (r: Self)
        ensures
            r.generation == generation,
            r.config_seen == config_seen,
            r.key == params.key,
            r.refresh_every == params.refresh_every,
            r.tick == params.tick,
            r.last_refresh == now,
            !r.focused,
    {
        HoldLoop {
            generation,
            config_seen,
            key: params.key,
            refresh_every: params.refresh_every,
            tick: params.tick,
            last_refresh: now as i128,
            focused: false,
        }
    }

    /// The sleep at the end of a round.
    fn sleep(&self) -> (r: Action)
        ensures
            r == Action::Sleep(sleep_after(self.focused, self.tick)),
    {
        if !self.focused {
            Action::Sleep(IDLE_SLEEP)
        } else if self.tick > MIN_TICK {
            Action::Sleep(self.tick)
        } else {
            Action::Sleep(MIN_TICK)
        }
    }

    /// Takes in what the last action came to and says what to do next.
    pub fn on_event(&mut self, event: Event) -> (r: Action)
        ensures
            *final(self) == old(self).after(event),
            r == old(self).reaction(event),
    {
        match event {
            Event::RoundStarted { running, current_generation, config_now } => {
                if !(running && current_generation == self.generation) {
                    return Action::Exit;
                }
                let changed = config_now != self.config_seen;
                self.config_seen = config_now;
                if changed {
                    Action::ReadParams
                } else {
                    Action::ProbeFocus
                }
            },
            Event::ParamsRead(params) => {
                self.refresh_every = params.refresh_every;
                self.tick = params.tick;
                if text::same_text(params.key.as_str(), self.key.as_str()) {
                    Action::ProbeFocus
                } else {
                    Action::ChangeKey(params.key)
                }
            },
            Event::KeyReady { key, now } => {
                self.key = key;
                self.last_refresh = now as i128 - self.refresh_every as i128;
                Action::ProbeFocus
            },
            Event::KeyRejected => Action::ProbeFocus,
            Event::FocusProbed(focused) => {
                self.focused = focused;
                Action::Publish { focused, close_chat: !focused }
            },
            Event::Published { blocked, chat_open } => {
                if self.focused && !blocked && !chat_open {
                    Action::Press
                } else {
                    Action::Release
                }
            },
            Event::Pressed { now } => {
                if now as i128 - self.refresh_every as i128 >= self.last_refresh {
                    Action::Refresh
                } else {
                    self.sleep()
                }
            },
            Event::Refreshed { now } => {
                self.last_refresh = now as i128;
                self.sleep()
            },
            Event::Released => self.sleep(),
        }
    }
}

/// The loop after all of `events`.
pub open spec fn after_all(hold: HoldLoop, events: Seq<Event>) -> HoldLoop
    decreases events.len(),
{
    if events.len() == 0 {
        hold
    } else {
        after_all(hold.after(events[0]), events.drop_first())
    }
}

/// At most one loop goes on: of two loops armed as different generations, the
/// start of a round ends at least one, so that a superseded loop cannot fight
/// the current one over the key.
pub proof fn one_loop_goes_on(
    a: HoldLoop,
    b: HoldLoop,
    running: bool,
    current_generation: u64,
    config_now: u64,
)
    requires
        a.generation != b.generation,
    ensures
        ({
            let start = Event::RoundStarted { running, current_generation, config_now };
            a.reaction(start) is Exit || b.reaction(start) is Exit
        }),
{
}

/// A loop never changes its generation, whatever happens to it.
pub proof fn generation_is_fixed(hold: HoldLoop, events: Seq<Event>)
    ensures
        after_all(hold, events).generation == hold.generation,
    decreases events.len(),
{
    if events.len() > 0 {
        generation_is_fixed(hold.after(events[0]), events.drop_first());
    }
}

/// The key is let go of when the game loses the focus, when key presses are
/// blocked, and while the chat is open; it is pressed in every other round.
pub proof fn key_is_held_only_in_game(hold: HoldLoop, focused: bool, blocked: bool, chat_open: bool)
    ensures
        ({
            let probed = hold.after(Event::FocusProbed(focused));
            let action = probed.reaction(Event::Published { blocked, chat_open });
            &&& action is Press <==> focused && !blocked && !chat_open
            &&& action is Release <==> !focused || blocked || chat_open
        }),
{
}

/// Losing the focus closes the chat and slows the loop down.
pub proof fn focus_loss_closes_chat(hold: HoldLoop)
    ensures
        hold.reaction(Event::FocusProbed(false)) == (Action::Publish {
            focused: false,
            close_chat: true,
        }),
        hold.after(Event::FocusProbed(false)).reaction(Event::Released) == Action::Sleep(
            IDLE_SLEEP,
        ),
{
}

/// Changed settings are read once: after a round has begun with a version of
/// the settings, no later round that finds the same version reads them again,
/// whatever happened in between.
pub proof fn settings_are_read_once(
    hold: HoldLoop,
    generation: u64,
    config: u64,
    between: Seq<Event>,
)
    requires
        hold.generation == generation,
        forall|i: int| 0 <= i < between.len() ==> match #[trigger] between[i] {
            Event::RoundStarted { config_now, .. } => config_now == config,
            _ => true,
        },
    ensures
        ({
            let start = Event::RoundStarted {
                running: true,
                current_generation: generation,
                config_now: config,
            };
            after_all(hold.after(start), between).reaction(start) is ProbeFocus
        }),
    decreases between.len(),
{
    let start = Event::RoundStarted {
        running: true,
        current_generation: generation,
        config_now: config,
    };
    let begun = hold.after(start);
    if between.len() > 0 {
        let next = begun.after(between[0]);
        assert(next.after(start) == next) by {
            assert(next.config_seen == config);
            assert(next.generation == generation);
        }
        let rest = between.drop_first();
        assert forall|i: int| 0 <= i < rest.len() implies match #[trigger] rest[i] {
            Event::RoundStarted { config_now, .. } => config_now == config,
            _ => true,
        } by {
            assert(rest[i] == between[i + 1]);
        }
        settings_are_read_once(next, generation, config, rest);
    }
}

/// Whether `event` leaves alone when the key was last refreshed and how often it
/// is to be: no key is set up or refreshed, and settings that are read have the
/// interval `refresh_every`.
pub open spec fn keeps_refresh(event: Event, refresh_every: u64) -> bool {
    match event {
        Event::KeyReady { .. } => false,
        Event::Refreshed { .. } => false,
        Event::ParamsRead(params) => params.refresh_every == refresh_every,
        _ => true,
    }
}

/// Events that leave the refresh alone keep its time and its interval.
proof fn lemma_refresh_is_kept(hold: HoldLoop, between: Seq<Event>)
    requires
        forall|i: int|
            0 <= i < between.len() ==> keeps_refresh(#[trigger] between[i], hold.refresh_every),
    ensures
        after_all(hold, between).last_refresh == hold.last_refresh,
        after_all(hold, between).refresh_every == hold.refresh_every,
    decreases between.len(),
{
    if between.len() > 0 {
        let rest = between.drop_first();
        assert(keeps_refresh(between[0], hold.refresh_every));
        assert forall|i: int| 0 <= i < rest.len() implies keeps_refresh(
            #[trigger] rest[i],
            hold.refresh_every,
        ) by {
            assert(rest[i] == between[i + 1]);
        }
        lemma_refresh_is_kept(hold.after(between[0]), rest);
    }
}

/// The interval runs from the last refresh, or from the start of a loop that has
/// not refreshed yet: however many rounds lie in between, a key that is held is
/// refreshed exactly when the interval is over.
pub proof fn refresh_waits_for_the_interval(
    hold: HoldLoop,
    now: u64,
    between: Seq<Event>,
    later: u64,
)
    requires
        hold.last_refresh == now,
        forall|i: int|
            0 <= i < between.len() ==> keeps_refresh(#[trigger] between[i], hold.refresh_every),
    ensures
        after_all(hold, between).reaction(Event::Pressed { now: later }) is Refresh <==> later - now
            >= hold.refresh_every,
{
    lemma_refresh_is_kept(hold, between);
}

/// A held key is refreshed once per interval: after a refresh, however many
/// rounds lie in between, it is refreshed again exactly when the interval is
/// over.
pub proof fn refresh_is_periodic(hold: HoldLoop, now: u64, between: Seq<Event>, later: u64)
    requires
        forall|i: int|
            0 <= i < between.len() ==> keeps_refresh(#[trigger] between[i], hold.refresh_every),
    ensures
        after_all(hold.after(Event::Refreshed { now }), between).reaction(
            Event::Pressed { now: later },
        ) is Refresh <==> later - now >= hold.refresh_every,
{
    refresh_waits_for_the_interval(hold.after(Event::Refreshed { now }), now, between, later);
}

/// A key that was just set up is refreshed the first time it is held, however
/// many rounds pass before that, as long as the interval stays as it is.
pub proof fn new_key_is_refreshed_at_once(
    hold: HoldLoop,
    key: String,
    now: u64,
    between: Seq<Event>,
    later: u64,
)
    requires
        now <= later,
        forall|i: int|
            0 <= i < between.len() ==> keeps_refresh(#[trigger] between[i], hold.refresh_every),
    ensures
        after_all(hold.after(Event::KeyReady { key, now }), between).reaction(
            Event::Pressed { now: later },
        ) is Refresh,
{
    lemma_refresh_is_kept(hold.after(Event::KeyReady { key, now }), between);
}

/// What the loop shares with the rest of the app.
pub struct Outside {
    /// The tool is on.
    pub running: bool,
    /// The current arming.
    pub current_generation: u64,
    /// The version of the settings.
    pub config_now: u64,
    /// Key presses are blocked.
    pub blocked: bool,
    /// The chat is open.
    pub chat_open: bool,
    /// The game has the focus, as published.
    pub game_focused: bool,
    /// The key is down.
    pub key_down: bool,
    /// How many times the state was emitted.
    pub emitted: nat,
}

/// `value` after `write`.
pub open spec fn set_to(value: bool, write: Option<bool>) -> bool {
    match write {
        Some(set) => set,
        None => value,
    }
}

impl Outside {
    /// The outside after `w` was written.
    pub open spec fn after(self, w: Writes) -> Outside {
        Outside {
            running: set_to(self.running, w.running),
            chat_open: set_to(self.chat_open, w.chat_open),
            game_focused: set_to(self.game_focused, w.game_focused),
            key_down: set_to(self.key_down, w.key_down),
            emitted: if w.emit {
                self.emitted + 1
            } else {
                self.emitted
            },
            ..self
        }
    }
}

/// What came of a stretch of the loop.
pub struct Course {
    pub hold: HoldLoop,
    pub outside: Outside,
    /// The actions, in order.
    pub actions: Seq<Action>,
    /// The loop was left.
    pub left: bool,
}

/// The course of `events`, up to the one that the loop is left at.
pub open spec fn course_of(hold: HoldLoop, outside: Outside, events: Seq<Event>) -> Course
    decreases events.len(),
{
    if events.len() == 0 {
        Course { hold, outside, actions: Seq::empty(), left: false }
    } else {
        let action = hold.reaction(events[0]);
        let next = hold.after(events[0]);
        let written = outside.after(action.written());
        if action is Exit {
            Course { hold: next, outside: written, actions: seq![action], left: true }
        } else {
            let rest = course_of(next, written, events.drop_first());
            Course { actions: seq![action] + rest.actions, ..rest }
        }
    }
}

/// The loop writes no more than it has to, and cleans up: whatever happens, it
/// never switches the tool on or off, never touches the block, the current
/// arming or the settings, and emits nothing while it runs. Once it is left, no
/// focus is published, the key is up, and the state was emitted once.
pub proof fn loop_cleans_up_and_leaves_the_rest_alone(
    hold: HoldLoop,
    outside: Outside,
    events: Seq<Event>,
)
    ensures
        ({
            let end = course_of(hold, outside, events);
            &&& end.outside.running == outside.running
            &&& end.outside.current_generation == outside.current_generation
            &&& end.outside.config_now == outside.config_now
            &&& end.outside.blocked == outside.blocked
            &&& !end.left ==> end.outside.emitted == outside.emitted
            &&& end.left ==> {
                &&& !end.outside.game_focused
                &&& !end.outside.key_down
                &&& end.outside.emitted == outside.emitted + 1
            }
        }),
    decreases events.len(),
{
    if events.len() > 0 {
        let action = hold.reaction(events[0]);
        if !(action is Exit) {
            loop_cleans_up_and_leaves_the_rest_alone(
                hold.after(events[0]),
                outside.after(action.written()),
                events.drop_first(),
            );
        }
    }
}

/// A loop that is switched off or superseded is left at the start of its next
/// round, before anything else is done: no key is pressed or refreshed, and all
/// that is written is that no focus is published, the key is up and the state is
/// emitted.
pub proof fn superseded_loop_only_cleans_up(
    hold: HoldLoop,
    outside: Outside,
    running: bool,
    current_generation: u64,
    config_now: u64,
    later: Seq<Event>,
)
    requires
        !goes_on(running, current_generation, hold.generation),
    ensures
        ({
            let start = Event::RoundStarted { running, current_generation, config_now };
            let end = course_of(hold, outside, seq![start] + later);
            &&& end.left
            &&& end.actions == seq![Action::Exit]
            &&& end.outside == (Outside {
                game_focused: false,
                key_down: false,
                emitted: outside.emitted + 1,
                ..outside
            })
        }),
{
    let start = Event::RoundStarted { running, current_generation, config_now };
    assert((seq![start] + later)[0] == start);
}

/// The tool is switched off only where its first key could not be set up; then
/// the state is emitted once, and nothing else is written. A loop that is run
/// starts with nothing written.
pub proof fn only_a_rejected_first_key_disarms(start: Start, outside: Outside)
    ensures
        start is Disarm ==> outside.after(start.written()) == (Outside {
            running: false,
            emitted: outside.emitted + 1,
            ..outside
        }),
        start is Run ==> outside.after(start.written()) == outside,
{
}

/// Each round leaves the key down exactly while the game is focused, nothing
/// blocks key presses and the chat is closed, publishes the focus that was
/// found, and closes the chat where the focus is lost.
pub proof fn round_sets_the_key(
    hold: HoldLoop,
    outside: Outside,
    focused: bool,
    blocked: bool,
    chat_open: bool,
)
    ensures
        ({
            let round = seq![Event::FocusProbed(focused), Event::Published { blocked, chat_open }];
            let end = course_of(hold, outside, round);
            &&& !end.left
            &&& end.outside == (Outside {
                game_focused: focused,
                chat_open: outside.chat_open && focused,
                key_down: must_hold(focused, blocked, chat_open),
                ..outside
            })
        }),
{
    reveal_with_fuel(course_of, 3);
    let round = seq![Event::FocusProbed(focused), Event::Published { blocked, chat_open }];
    assert(round.drop_first()[0] == round[1]);
}

/// Enter counts as down from a press while armed to its release: a release
/// always lets it up, a press while armed takes it down, and nothing else moves
/// it.
pub proof fn enter_is_down_until_released(down: bool, armed: bool)
    ensures
        !enter_down_after(down, Key::EnterReleased, armed),
        enter_down_after(down, Key::EnterPressed, true),
        enter_down_after(down, Key::EnterPressed, false) == down,
        enter_down_after(down, Key::EscapePressed, armed) == down,
        enter_down_after(down, Key::Other, armed) == down,
{
}

/// While the tool is armed and the game is focused, Enter turns the chat over
/// each time it goes down and Escape closes it, whatever was open before; a
/// repeated press, a release and every other key leave it alone. While the tool
/// is not armed or the game not focused, so does every key.
pub proof fn keys_set_the_chat(down: bool, key: Key, armed: bool, focused: bool, open: bool)
    ensures
        chat_set_by(false, Key::EnterPressed, true, true, open) == Some(!open),
        chat_set_by(down, Key::EscapePressed, true, true, open) == Some(false),
        chat_set_by(true, Key::EnterPressed, armed, focused, open) is None,
        chat_set_by(down, Key::EnterReleased, armed, focused, open) is None,
        chat_set_by(down, Key::Other, armed, focused, open) is None,
        !armed || !focused ==> chat_set_by(down, key, armed, focused, open) is None,
{
}

/// Whether the chat is open, and whether Enter counts as down, after all of
/// `strokes`.
pub open spec fn chat_through(down: bool, open: bool, strokes: Seq<KeyStroke>) -> (bool, bool)
    decreases strokes.len(),
{
    if strokes.len() == 0 {
        (open, down)
    } else {
        let (now_open, now_down) = chat_through(down, open, strokes.drop_last());
        let s = strokes.last();
        (chat_after(now_down, s, now_open), enter_down_after(now_down, s.key, s.armed))
    }
}

/// How many of `strokes` are `key`.
pub open spec fn count_of(strokes: Seq<KeyStroke>, key: Key) -> nat
    decreases strokes.len(),
{
    if strokes.len() == 0 {
        0
    } else {
        count_of(strokes.drop_last(), key) + if strokes.last().key == key {
            1nat
        } else {
            0nat
        }
    }
}

/// Every press of Enter turns the chat over: over strokes in the armed, focused
/// game that press and release Enter in turn, with any keys but Escape in
/// between, the chat is as it was after an even number of presses and the other
/// way round after an odd one.
pub proof fn every_press_turns_the_chat_over(open: bool, strokes: Seq<KeyStroke>, presses: nat)
    requires
        forall|i: int|
            0 <= i < strokes.len() ==> (#[trigger] strokes[i]).armed && strokes[i].focused
                && strokes[i].key != Key::EscapePressed,
        count_of(strokes, Key::EnterPressed) == presses,
        forall|n: int| 0 <= n <= strokes.len() ==> {
            let before = #[trigger] strokes.take(n);
            let ahead = count_of(before, Key::EnterPressed) - count_of(
                before,
                Key::EnterReleased,
            );
            0 <= ahead <= 1
        },
    ensures
        chat_through(false, open, strokes) == (
            open != (presses % 2 == 1),
            presses != count_of(strokes, Key::EnterReleased),
        ),
    decreases strokes.len(),
{
    assert(strokes.take(strokes.len() as int) =~= strokes);
    if strokes.len() > 0 {
        let rest = strokes.drop_last();
        assert forall|n: int| 0 <= n <= rest.len() implies {
            let before = #[trigger] rest.take(n);
            let ahead = count_of(before, Key::EnterPressed) - count_of(
                before,
                Key::EnterReleased,
            );
            0 <= ahead <= 1
        } by {
            assert(rest.take(n) =~= strokes.take(n));
        }
        assert(strokes.take(strokes.len() - 1) =~= rest);
        assert(strokes.last().armed);
        every_press_turns_the_chat_over(open, rest, count_of(rest, Key::EnterPressed));
    }
}

/// Settings apply as soon as they are read, and until they are read again: the
/// interval and the tick are those of the settings, whether or not the key
/// differs from the one that is held, and whatever happens afterwards.
pub proof fn read_settings_apply(hold: HoldLoop, params: Params, between: Seq<Event>)
    requires
        forall|i: int| 0 <= i < between.len() ==> !(#[trigger] between[i] is ParamsRead),
    ensures
        after_all(hold.after(Event::ParamsRead(params)), between).refresh_every
            == params.refresh_every,
        after_all(hold.after(Event::ParamsRead(params)), between).tick == params.tick,
        after_all(hold, between).refresh_every == hold.refresh_every,
        after_all(hold, between).tick == hold.tick,
{
    lemma_settings_are_kept(hold.after(Event::ParamsRead(params)), between);
    lemma_settings_are_kept(hold, between);
}

/// Without new settings, the interval and the tick stay.
proof fn lemma_settings_are_kept(hold: HoldLoop, between: Seq<Event>)
    requires
        forall|i: int| 0 <= i < between.len() ==> !(#[trigger] between[i] is ParamsRead),
    ensures
        after_all(hold, between).refresh_every == hold.refresh_every,
        after_all(hold, between).tick == hold.tick,
    decreases between.len(),
{
    if between.len() > 0 {
        let rest = between.drop_first();
        assert(!(between[0] is ParamsRead));
        assert forall|i: int| 0 <= i < rest.len() implies !(#[trigger] rest[i] is ParamsRead) by {
            assert(rest[i] == between[i + 1]);
        }
        lemma_settings_are_kept(hold.after(between[0]), rest);
    }
}

/// Settings with another key have that key set up; settings with the same key go
/// straight on to the focus. Reading them changes nothing but the interval and
/// the tick: the key stays the held one until the new one is ready.
pub proof fn another_key_is_set_up(hold: HoldLoop, params: Params)
    ensures
        ({
            let action = hold.reaction(Event::ParamsRead(params));
            &&& params.key@ != hold.key@ ==> action == Action::ChangeKey(params.key)
            &&& params.key@ == hold.key@ ==> action is ProbeFocus
        }),
        hold.after(Event::ParamsRead(params)) == (HoldLoop {
            refresh_every: params.refresh_every,
            tick: params.tick,
            ..hold
        }),
{
}

/// The held key is the one that was set up last: it stays through everything but
/// another key being set up, rejected keys and new settings included.
pub proof fn held_key_is_the_last_set_up(
    hold: HoldLoop,
    key: String,
    now: u64,
    between: Seq<Event>,
)
    requires
        forall|i: int| 0 <= i < between.len() ==> !(#[trigger] between[i] is KeyReady),
    ensures
        after_all(hold.after(Event::KeyReady { key, now }), between).key == key,
        after_all(hold, between).key == hold.key,
{
    lemma_key_is_kept(hold.after(Event::KeyReady { key, now }), between);
    lemma_key_is_kept(hold, between);
}

/// Without a new key, the key stays.
proof fn lemma_key_is_kept(hold: HoldLoop, between: Seq<Event>)
    requires
        forall|i: int| 0 <= i < between.len() ==> !(#[trigger] between[i] is KeyReady),
    ensures
        after_all(hold, between).key == hold.key,
    decreases between.len(),
{
    if between.len() > 0 {
        let rest = between.drop_first();
        assert(!(between[0] is KeyReady));
        assert forall|i: int| 0 <= i < rest.len() implies !(#[trigger] rest[i] is KeyReady) by {
            assert(rest[i] == between[i + 1]);
        }
        lemma_key_is_kept(hold.after(between[0]), rest);
    }
}

/// The focus that counts is the one that was probed last.
pub proof fn last_probe_counts(hold: HoldLoop, focused: bool, between: Seq<Event>)
    requires
        forall|i: int| 0 <= i < between.len() ==> !(#[trigger] between[i] is FocusProbed),
    ensures
        after_all(hold.after(Event::FocusProbed(focused)), between).focused == focused,
        hold.reaction(Event::FocusProbed(focused)) == (Action::Publish {
            focused,
            close_chat: !focused,
        }),
{
    lemma_focus_is_kept(hold.after(Event::FocusProbed(focused)), between);
}

/// Without a probe, the focus stays.
proof fn lemma_focus_is_kept(hold: HoldLoop, between: Seq<Event>)
    requires
        forall|i: int| 0 <= i < between.len() ==> !(#[trigger] between[i] is FocusProbed),
    ensures
        after_all(hold, between).focused == hold.focused,
    decreases between.len(),
{
    if between.len() > 0 {
        let rest = between.drop_first();
        assert(!(between[0] is FocusProbed));
        assert forall|i: int| 0 <= i < rest.len() implies !(#[trigger] rest[i] is FocusProbed) by {
            assert(rest[i] == between[i + 1]);
        }
        lemma_focus_is_kept(hold.after(between[0]), rest);
    }
}

/// The time of the last refresh is when the key was refreshed; a key that was
/// just set up counts as refreshed one interval ago; nothing else moves it, new
/// settings included. A pressed key is refreshed exactly when the current
/// interval has passed since.
pub proof fn refresh_is_counted_from_the_last(hold: HoldLoop, event: Event, now: u64)
    ensures
        hold.after(Event::Refreshed { now }).last_refresh == now,
        event matches Event::KeyReady { now: ready, .. } ==> hold.after(event).last_refresh
            + hold.refresh_every == ready,
        !(event is Refreshed || event is KeyReady) ==> hold.after(event).last_refresh
            == hold.last_refresh,
        hold.reaction(Event::Pressed { now }) is Refresh <==> now >= hold.last_refresh
            + hold.refresh_every,
{
}

/// The loop that was armed last goes on while the tool is on; a round that goes
/// on reads the settings exactly where their version changed and remembers it,
/// and one that does not leaves the loop as it is.
pub proof fn current_loop_goes_on(
    hold: HoldLoop,
    running: bool,
    current_generation: u64,
    config_now: u64,
)
    ensures
        ({
            let start = Event::RoundStarted { running, current_generation, config_now };
            let action = hold.reaction(start);
            let next = hold.after(start);
            &&& running && current_generation == hold.generation ==> {
                &&& config_now != hold.config_seen ==> action is ReadParams
                &&& config_now == hold.config_seen ==> action is ProbeFocus
                &&& next == (HoldLoop { config_seen: config_now, ..hold })
            }
            &&& !running || current_generation != hold.generation ==> action is Exit && next == hold
        }),
{
}

/// Every step of a round leads to the next one: a key that is set up or rejected
/// to the probe, a key that is let go of or refreshed to the sleep, and a key
/// that is pressed to its refresh or the sleep. Only the start of a round ends
/// the loop, and what no step above changes stays.
pub proof fn every_step_leads_on(hold: HoldLoop, event: Event)
    ensures
        event is KeyReady || event is KeyRejected ==> hold.reaction(event) is ProbeFocus,
        event is Refreshed || event is Released ==> hold.reaction(event) is Sleep,
        event is Pressed ==> hold.reaction(event) is Refresh || hold.reaction(event) is Sleep,
        hold.reaction(event) is Exit ==> event is RoundStarted,
        event is KeyRejected || event is Published || event is Pressed || event is Released
            ==> hold.after(event) == hold,
        hold.after(event).config_seen != hold.config_seen ==> event is RoundStarted,
        hold.after(event).focused != hold.focused ==> event is FocusProbed,
{
}

/// The loop sleeps for the tick, but no less than ten milliseconds, while the
/// game is focused, and for a quarter of a second while it is not.
pub proof fn sleep_follows_the_focus(hold: HoldLoop, event: Event, ns: u64)
    requires
        hold.reaction(event) == Action::Sleep(ns),
    ensures
        hold.focused ==> ns >= hold.tick && ns >= 10_000_000 && (ns == hold.tick || ns
            == 10_000_000),
        !hold.focused ==> ns == 250_000_000,
{
}

/// What each action writes, thing by thing: none switches the tool on or off;
/// only leaving emits the state; pressing and refreshing leave the key down,
/// letting go, changing the key and leaving leave it up; publishing and leaving
/// publish the focus; the chat is only ever closed, where publishing says so.
pub proof fn actions_write_what_they_say(action: Action)
    ensures
        ({
            let w = action.written();
            &&& w.running is None
            &&& w.emit <==> action is Exit
            &&& w.key_down == Some(true) <==> action is Press || action is Refresh
            &&& w.key_down == Some(false) <==> action is Release || action is ChangeKey
                || action is Exit
            &&& w.game_focused is Some <==> action is Publish || action is Exit
            &&& action is Exit ==> w.game_focused == Some(false)
            &&& action matches Action::Publish { focused, close_chat } ==> {
                &&& w.game_focused == Some(focused)
                &&& close_chat <==> w.chat_open == Some(false)
            }
            &&& w.chat_open is Some ==> action is Publish && w.chat_open == Some(false)
        }),
{
}

} // verus!
