//! The game client's WebSocket event feed.
//!
//! The feed subscribes to three events, reads each text frame as
//! `[8, "<event name>", {"uri": ..., "data": ...}]`. [`Feed`] says what to do
//! about each message; a ready check is accepted and counted once, however many
//! times the client announces it ([`ReadyCheck`]).
use crate::json::{self, Json};
use crate::text;
use vstd::prelude::*;

verus! {

/// The game flow moved to another phase.
pub const PHASE_EVENT: &'static str = "OnJsonApiEvent_lol-gameflow_v1_gameflow-phase";

/// The champion select session changed.
pub const SESSION_EVENT: &'static str = "OnJsonApiEvent_lol-champ-select_v1_session";

/// Another champion is hovered in champion select.
pub const HOVERED_CHAMPION_EVENT: &'static str =
    "OnJsonApiEvent_lol-champ-select_v1_hovered-champion-id";

/// The `uri` of a phase event.
pub const PHASE_URI: &'static str = "/lol-gameflow/v1/gameflow-phase";

/// The `uri` of a champion select session event.
pub const SESSION_URI: &'static str = "/lol-champ-select/v1/session";

/// The `uri` of a hovered champion event.
pub const HOVERED_CHAMPION_URI: &'static str = "/lol-champ-select/v1/hovered-champion-id";

/// The phase in which a found match waits to be accepted.
pub const READY_CHECK: &'static str = "ReadyCheck";

/// Longest wait for a message, in nanoseconds: switching the feature off takes
/// effect within it.
pub const RECEIVE_WAIT: u64 = 1_000_000_000;

/// The WebSocket address that belongs to the REST address `base_url`: the
/// leftmost `https` becomes `wss`.
pub fn websocket_url(base_url: &str) -> (r: String)
    ensures
        r@ == text::first_replaced(base_url@, "https"@, "wss"@),
{
    text::replace_first(base_url, "https", "wss")
}

/// An address that starts with `https` keeps everything behind it.
pub proof fn secure_address_keeps_its_rest(rest: Seq<char>)
    ensures
        text::first_replaced("https"@ + rest, "https"@, "wss"@) == "wss"@ + rest,
{
    let base = "https"@ + rest;
    assert(base.take("https"@.len() as int) =~= "https"@);
    assert(base.skip("https"@.len() as int) =~= rest);
}

/// The frame that subscribes to `event`.
pub open spec fn subscribe_text(event: Seq<char>) -> Seq<char> {
    "[5, \""@ + event + "\"]"@
}

/// Builds the frame that subscribes to `event`.
pub fn subscribe_frame(event: &str) -> (r: String)
    ensures
        r@ == subscribe_text(event@),
{
    let mut frame = "[5, \"".to_owned();
    frame.append(event);
    frame.append("\"]");
    frame
}

/// The frames to send once the socket is open, in order.
pub fn subscriptions() -> (r: Vec<String>)
    ensures
        r@.len() == 3,
        r@[0]@ == subscribe_text(PHASE_EVENT@),
        r@[1]@ == subscribe_text(SESSION_EVENT@),
        r@[2]@ == subscribe_text(HOVERED_CHAMPION_EVENT@),
{
    let mut frames: Vec<String> = Vec::new();
    frames.push(subscribe_frame(PHASE_EVENT));
    frames.push(subscribe_frame(SESSION_EVENT));
    frames.push(subscribe_frame(HOVERED_CHAMPION_EVENT));
    frames
}

/// Whether the stream that was started as `generation` goes on: the feature is
/// switched on and no newer stream has taken over.
pub open spec fn goes_on(running: bool, current_generation: u64, generation: u64) -> bool {
    running && current_generation == generation
}

/// Decides before each message whether the stream that was started as
/// `generation` goes on.
pub fn keep_streaming(running: bool, current_generation: u64, generation: u64) -> (r: bool)
    ensures
        r == goes_on(running, current_generation, generation),
{
    running && current_generation == generation
}

/// At most one stream goes on: of two streams started as different generations,
/// at least one is told to end.
pub proof fn one_stream_goes_on(running: bool, current_generation: u64, a: u64, b: u64)
    requires
        a != b,
    ensures
        !(goes_on(running, current_generation, a) && goes_on(running, current_generation, b)),
{
}

/// The `data` member of an event, read the ways the feed needs it.
pub struct Payload {
    /// The characters, where it is a string.
    pub text: Option<String>,
    /// The value, where it is an integer in the range of `i64`.
    pub integer: Option<i64>,
    /// The whole document.
    pub raw: serde_json::Value,
}

/// The event object of a text frame.
pub struct Frame {
    /// Its `uri`, where that is a string.
    pub uri: Option<String>,
    /// Its `data`, where it has one.
    pub data: Option<Payload>,
}

/// What a [`Payload`] holds.
pub struct PayloadView {
    pub text: Option<Seq<char>>,
    pub integer: Option<i64>,
    pub raw: Json,
}

/// What a [`Frame`] holds.
pub struct FrameView {
    pub uri: Option<Seq<char>>,
    pub data: Option<PayloadView>,
}

impl View for Payload {
    type V = PayloadView;

    open spec fn view(&self) -> PayloadView {
        PayloadView {
            text: text::chars_in(self.text),
            integer: self.integer,
            raw: json::json_of(self.raw),
        }
    }
}

impl View for Frame {
    type V = FrameView;

    open spec fn view(&self) -> FrameView {
        FrameView {
            uri: text::chars_in(self.uri),
            data: match self.data {
                Some(d) => Some(d@),
                None => None,
            },
        }
    }
}

/// The `data` document `d` as the feed reads it.
pub open spec fn payload_of(d: Json) -> PayloadView {
    PayloadView { text: d.text(), integer: d.integer(), raw: d }
}

/// The event that the frame document `doc` carries: its third element.
pub open spec fn frame_of(doc: Json) -> Option<FrameView> {
    match doc.at(2) {
        Some(event) => Some(
            FrameView {
                uri: match event.member("uri"@) {
                    Some(uri) => uri.text(),
                    None => None,
                },
                data: match event.member("data"@) {
                    Some(d) => Some(payload_of(d)),
                    None => None,
                },
            },
        ),
        None => None,
    }
}

/// What a [`Frame`] holds, if there is one.
pub open spec fn frame_in(f: Option<Frame>) -> Option<FrameView> {
    match f {
        Some(f) => Some(f@),
        None => None,
    }
}

/// An owned copy of an optional string slice.
fn owned(s: Option<&str>) -> (r: Option<String>)
    ensures
        text::chars_in(r) == text::text_behind(s),
{
    match s {
        Some(s) => Some(s.to_owned()),
        None => None,
    }
}

/// Reads the event out of a frame document; `None` where the document has no
/// third element.
pub fn read_event(doc: &serde_json::Value) -> (r: Option<Frame>)
    ensures
        frame_in(r) == frame_of(json::json_of(*doc)),
{
    let event = match json::element(doc, 2) {
        Some(event) => event,
        None => {
            return None;
        },
    };
    let uri = match json::member(event, "uri") {
        Some(uri) => owned(json::as_text(uri)),
        None => None,
    };
    let data = match json::member(event, "data") {
        Some(d) => Some(
            Payload {
                text: owned(json::as_text(d)),
                integer: json::as_integer(d),
                raw: json::copy(d),
            },
        ),
        None => None,
    };
    Some(Frame { uri, data })
}

/// The event in the text frame `text`; `None` where the text is no JSON
/// document or the document has no third element.
pub fn read_frame(text: &str) -> (r: Option<Frame>)
    ensures
        frame_in(r) == (match json::json_parsed(text@) {
            Some(doc) => frame_of(doc),
            None => None,
        }),
{
    match json::parse(text) {
        Some(doc) => read_event(&doc),
        None => None,
    }
}

/// What a message turns out to be.
pub enum Incoming {
    /// Nothing the feed acts on.
    Nothing,
    /// The end of the stream.
    Lost,
    /// The game flow entered a phase.
    Phase(String),
    /// The champion select session changed; a document that may be one.
    Session(serde_json::Value),
    /// Another champion is hovered, or none.
    HoveredChampion(Option<i64>),
}

/// What an [`Incoming`] holds.
pub enum IncomingView {
    Nothing,
    Lost,
    Phase(Seq<char>),
    Session(Json),
    HoveredChampion(Option<i64>),
}

impl View for Incoming {
    type V = IncomingView;

    open spec fn view(&self) -> IncomingView {
        match self {
            Incoming::Nothing => IncomingView::Nothing,
            Incoming::Lost => IncomingView::Lost,
            Incoming::Phase(phase) => IncomingView::Phase(phase@),
            Incoming::Session(doc) => IncomingView::Session(json::json_of(*doc)),
            Incoming::HoveredChampion(id) => IncomingView::HoveredChampion(*id),
        }
    }
}

/// The champion id in a payload: an integer, or a string that writes one.
pub open spec fn champion_in(data: Option<PayloadView>) -> Option<i64> {
    match data {
        Some(d) => match (d.integer, d.text) {
            (Some(n), _) => Some(n),
            (None, Some(s)) => text::decimal_i64(s),
            (None, None) => None,
        },
        None => None,
    }
}

/// What an event is.
pub open spec fn incoming_of(frame: FrameView) -> IncomingView {
    if frame.uri == Some(PHASE_URI@) {
        match frame.data {
            Some(PayloadView { text: Some(phase), .. }) => IncomingView::Phase(phase),
            _ => IncomingView::Nothing,
        }
    } else if frame.uri == Some(SESSION_URI@) {
        match frame.data {
            Some(d) => IncomingView::Session(d.raw),
            None => IncomingView::Nothing,
        }
    } else if frame.uri == Some(HOVERED_CHAMPION_URI@) {
        IncomingView::HoveredChampion(champion_in(frame.data))
    } else {
        IncomingView::Nothing
    }
}

/// Tells what an event is.
pub fn on_frame(frame: Frame) -> (r: Incoming)
    ensures
        r@ == incoming_of(frame@),
{
    let uri = match &frame.uri {
        Some(uri) => uri.as_str(),
        None => {
            return Incoming::Nothing;
        },
    };
    if text::same_text(uri, PHASE_URI) {
        match frame.data {
            Some(Payload { text: Some(phase), .. }) => Incoming::Phase(phase),
            _ => Incoming::Nothing,
        }
    } else if text::same_text(uri, SESSION_URI) {
        match frame.data {
            Some(d) => Incoming::Session(d.raw),
            None => Incoming::Nothing,
        }
    } else if text::same_text(uri, HOVERED_CHAMPION_URI) {
        let id = match &frame.data {
            Some(d) => match (d.integer, &d.text) {
                (Some(n), _) => Some(n),
                (None, Some(s)) => text::parse_i64(s.as_str()),
                (None, None) => None,
            },
            None => None,
        };
        Incoming::HoveredChampion(id)
    } else {
        Incoming::Nothing
    }
}

/// What waiting for the next message brought.
pub enum SocketEvent {
    /// No message within the bounded wait.
    TimedOut,
    /// The client closed the socket.
    Closed,
    /// The socket failed.
    Failed,
    /// A text message.
    Text(String),
    /// A message that is no text.
    Other,
}

/// What the text message `text` is.
pub open spec fn incoming_of_text(text: Seq<char>) -> IncomingView {
    match json::json_parsed(text) {
        Some(doc) => match frame_of(doc) {
            Some(frame) => incoming_of(frame),
            None => IncomingView::Nothing,
        },
        None => IncomingView::Nothing,
    }
}

/// What the socket delivered.
pub open spec fn incoming_of_socket(event: SocketEvent) -> IncomingView {
    match event {
        SocketEvent::TimedOut => IncomingView::Nothing,
        SocketEvent::Closed => IncomingView::Lost,
        SocketEvent::Failed => IncomingView::Lost,
        SocketEvent::Text(text) => incoming_of_text(text@),
        SocketEvent::Other => IncomingView::Nothing,
    }
}

/// Tells what the socket delivered: only a closed or failed socket ends the
/// stream.
pub fn on_socket(event: SocketEvent) -> (r: Incoming)
    ensures
        r@ == incoming_of_socket(event),
        r is Lost <==> event is Closed || event is Failed,
{
    match event {
        SocketEvent::TimedOut => Incoming::Nothing,
        SocketEvent::Closed => Incoming::Lost,
        SocketEvent::Failed => Incoming::Lost,
        SocketEvent::Text(text) => match read_frame(text.as_str()) {
            Some(frame) => on_frame(frame),
            None => Incoming::Nothing,
        },
        SocketEvent::Other => Incoming::Nothing,
    }
}

/// Whether the current ready check has been accepted. The feed and the poller
/// share one, so that a check that both see is counted once.
pub struct ReadyCheck {
    pub handled: bool,
}

/// What an accept request came to.
#[derive(Clone, Copy, Debug, PartialEq, Eq, Structural)]
pub enum Acceptance {
    /// Accepted: count it.
    Record,
    /// Accepted, but it was counted before.
    AlreadyRecorded,
    /// Not accepted: it stays open for the next attempt.
    Failed,
}

/// Something that bears on a ready check.
pub enum ReadyEvent {
    /// The game flow entered a phase.
    Phase(Seq<char>),
    /// An accept request was answered; whether the match was accepted.
    Answered(bool),
}

/// Whether the ready check counts as handled after `event`.
pub open spec fn handled_after(handled: bool, event: ReadyEvent) -> bool {
    match event {
        ReadyEvent::Phase(phase) => handled && phase == READY_CHECK@,
        ReadyEvent::Answered(accepted) => handled || accepted,
    }
}

/// Whether entering `phase` calls for an accept request.
pub open spec fn wants_accept(handled: bool, phase: Seq<char>) -> bool {
    phase == READY_CHECK@ && !handled
}

/// What the answer `accepted` comes to.
pub open spec fn acceptance_of(handled: bool, accepted: bool) -> Acceptance {
    if !accepted {
        Acceptance::Failed
    } else if handled {
        Acceptance::AlreadyRecorded
    } else {
        Acceptance::Record
    }
}

impl ReadyCheck {
    /// No ready check has been accepted yet.
    pub fn new() -> (r: Self)
        ensures
            !r.handled,
    {
        ReadyCheck { handled: false }
    }

    /// The game flow entered `phase`; returns whether to send an accept
    /// request. Any phase but the ready check opens the way for the next one.
    pub fn phase_entered(&mut self, phase: &str) -> (r: bool)
        ensures
            r == wants_accept(old(self).handled, phase@),
            final(self).handled == handled_after(old(self).handled, ReadyEvent::Phase(phase@)),
    {
        if text::same_text(phase, READY_CHECK) {
            !self.handled
        } else {
            self.handled = false;
            false
        }
    }

    /// An accept request was answered.
    pub fn answered(&mut self, accepted: bool) -> (r: Acceptance)
        ensures
            r == acceptance_of(old(self).handled, accepted),
            final(self).handled == handled_after(old(self).handled, ReadyEvent::Answered(accepted)),
    {
        if !accepted {
            return Acceptance::Failed;
        }
        let before = self.handled;
        self.handled = true;
        if before {
            Acceptance::AlreadyRecorded
        } else {
            Acceptance::Record
        }
    }
}

/// How many acceptances are counted over `events`.
pub open spec fn recorded(handled: bool, events: Seq<ReadyEvent>) -> nat
    decreases events.len(),
{
    if events.len() == 0 {
        0
    } else {
        let first: nat = match events[0] {
            ReadyEvent::Answered(accepted) => if acceptance_of(handled, accepted)
                == Acceptance::Record {
                1
            } else {
                0
            },
            ReadyEvent::Phase(_) => 0,
        };
        first + recorded(handled_after(handled, events[0]), events.drop_first())
    }
}

/// How many of `events` enter a phase other than the ready check.
pub open spec fn other_phases(events: Seq<ReadyEvent>) -> nat
    decreases events.len(),
{
    if events.len() == 0 {
        0
    } else {
        let first: nat = match events[0] {
            ReadyEvent::Phase(phase) => if phase == READY_CHECK@ {
                0
            } else {
                1
            },
            ReadyEvent::Answered(_) => 0,
        };
        first + other_phases(events.drop_first())
    }
}

/// A ready check is counted at most once: between two phases other than the
/// ready check, however often it is announced and answered, at most one
/// acceptance is recorded, and none where it was handled before.
pub proof fn ready_check_is_counted_once(handled: bool, events: Seq<ReadyEvent>)
    ensures
        recorded(handled, events) <= other_phases(events) + if handled {
            0nat
        } else {
            1nat
        },
    decreases events.len(),
{
    if events.len() > 0 {
        ready_check_is_counted_once(handled_after(handled, events[0]), events.drop_first());
    }
}

/// Whether the ready check counts as handled after all of `events`.
pub open spec fn handled_through(handled: bool, events: Seq<ReadyEvent>) -> bool
    decreases events.len(),
{
    if events.len() == 0 {
        handled
    } else {
        handled_through(handled_after(handled, events[0]), events.drop_first())
    }
}

/// An accepted ready check is left alone: until another phase is entered, no
/// announcement calls for an accept request again.
pub proof fn accepted_ready_check_is_left_alone(events: Seq<ReadyEvent>, phase: Seq<char>)
    requires
        other_phases(events) == 0,
    ensures
        handled_through(true, events),
        !wants_accept(handled_through(true, events), phase),
    decreases events.len(),
{
    if events.len() > 0 {
        accepted_ready_check_is_left_alone(events.drop_first(), phase);
    }
}

/// A failed accept request changes nothing: every phase calls for an accept
/// request exactly where it did before the attempt.
pub proof fn failed_accept_changes_nothing(handled: bool, phase: Seq<char>)
    ensures
        handled_after(handled, ReadyEvent::Answered(false)) == handled,
        wants_accept(handled_after(handled, ReadyEvent::Answered(false)), phase) == wants_accept(
            handled,
            phase,
        ),
{
}

/// What the feed hears back from carrying out an [`Action`].
pub enum Event {
    /// Whether the feature is switched on, and which stream is the current one.
    Checked { running: bool, current_generation: u64 },
    /// What the socket delivered.
    Received(SocketEvent),
    /// The phase was published.
    PhasePublished,
    /// The accept request was answered; whether the match was accepted.
    Answered(bool),
    /// Whether the document is a champion select session.
    SessionDecoded(bool),
    /// The phase was announced, or an input was forwarded.
    Done,
}

/// What the feed has its caller do.
pub enum Action {
    /// Leave the stream.
    Exit,
    /// Check whether the stream goes on.
    Check,
    /// Wait for the next message, for [`RECEIVE_WAIT`] at most.
    Receive,
    /// Publish the phase as the current one.
    PublishPhase(String),
    /// Send an accept request.
    Accept,
    /// Count the acceptance where it is to be recorded, emit the state, and
    /// forward the phase.
    Announce { phase: String, acceptance: Option<Acceptance> },
    /// Find out whether the document is a champion select session.
    DecodeSession(serde_json::Value),
    /// Forward the session that was decoded.
    ForwardSession,
    /// Forward the hovered champion.
    ForwardHovered(Option<i64>),
}

/// What an [`Action`] holds.
pub enum ActionView {
    Exit,
    Check,
    Receive,
    PublishPhase(Seq<char>),
    Accept,
    Announce { phase: Seq<char>, acceptance: Option<Acceptance> },
    DecodeSession(Json),
    ForwardSession,
    ForwardHovered(Option<i64>),
}

impl View for Action {
    type V = ActionView;

    open spec fn view(&self) -> ActionView {
        match self {
            Action::Exit => ActionView::Exit,
            Action::Check => ActionView::Check,
            Action::Receive => ActionView::Receive,
            Action::PublishPhase(phase) => ActionView::PublishPhase(phase@),
            Action::Accept => ActionView::Accept,
            Action::Announce { phase, acceptance } => ActionView::Announce {
                phase: phase@,
                acceptance: *acceptance,
            },
            Action::DecodeSession(doc) => ActionView::DecodeSession(json::json_of(*doc)),
            Action::ForwardSession => ActionView::ForwardSession,
            Action::ForwardHovered(id) => ActionView::ForwardHovered(*id),
        }
    }
}

/// One stream of events.
pub struct Feed {
    /// The stream's number.
    pub generation: u64,
    /// The phase that is being dealt with.
    pub phase: Option<String>,
}

/// What a [`Feed`] holds.
pub struct FeedView {
    pub generation: u64,
    pub phase: Option<Seq<char>>,
}

impl View for Feed {
    type V = FeedView;

    open spec fn view(&self) -> FeedView {
        FeedView { generation: self.generation, phase: text::chars_in(self.phase) }
    }
}

impl FeedView {
    /// Whether the ready check counts as handled after `event`.
    pub open spec fn handled_next(self, handled: bool, event: Event) -> bool {
        match (event, self.phase) {
            (Event::PhasePublished, Some(phase)) => handled_after(
                handled,
                ReadyEvent::Phase(phase),
            ),
            (Event::Answered(accepted), _) => handled_after(
                handled,
                ReadyEvent::Answered(accepted),
            ),
            _ => handled,
        }
    }

    /// The feed after `event`.
    pub open spec fn after(self, handled: bool, event: Event) -> FeedView {
        match event {
            Event::Received(message) => match incoming_of_socket(message) {
                IncomingView::Phase(phase) => FeedView { phase: Some(phase), ..self },
                _ => self,
            },
            Event::PhasePublished => match self.phase {
                Some(phase) => if wants_accept(handled, phase) {
                    self
                } else {
                    FeedView { phase: None, ..self }
                },
                None => self,
            },
            Event::Answered(_) => FeedView { phase: None, ..self },
            _ => self,
        }
    }

    /// What the feed does about `event`.
    pub open spec fn reaction(self, handled: bool, event: Event) -> ActionView {
        match event {
            Event::Checked { running, current_generation } => if goes_on(
                running,
                current_generation,
                self.generation,
            ) {
                ActionView::Receive
            } else {
                ActionView::Exit
            },
            Event::Received(message) => match incoming_of_socket(message) {
                IncomingView::Nothing => ActionView::Check,
                IncomingView::Lost => ActionView::Exit,
                IncomingView::Phase(phase) => ActionView::PublishPhase(phase),
                IncomingView::Session(doc) => ActionView::DecodeSession(doc),
                IncomingView::HoveredChampion(id) => ActionView::ForwardHovered(id),
            },
            Event::PhasePublished => match self.phase {
                Some(phase) => if wants_accept(handled, phase) {
                    ActionView::Accept
                } else {
                    ActionView::Announce { phase, acceptance: None }
                },
                None => ActionView::Check,
            },
            Event::Answered(accepted) => match self.phase {
                Some(phase) => ActionView::Announce {
                    phase,
                    acceptance: Some(acceptance_of(handled, accepted)),
                },
                None => ActionView::Check,
            },
            Event::SessionDecoded(is_session) => if is_session {
                ActionView::ForwardSession
            } else {
                ActionView::Check
            },
            Event::Done => ActionView::Check,
        }
    }
}

impl Feed {
    /// The stream that is started as `generation`.
    pub fn new(generation: u64) -> (r: Self)
        ensures
            r@ == (FeedView { generation, phase: None }),
    {
        Feed { generation, phase: None }
    }

    /// Takes in what the last action came to and says what to do next. `ready`
    /// is the ready check that the feed shares with the poller.
    pub fn on_event(&mut self, ready: &mut ReadyCheck, event: Event) -> (r: Action)
        ensures
            r@ == old(self)@.reaction(old(ready).handled, event),
            final(self)@ == old(self)@.after(old(ready).handled, event),
            final(ready).handled == old(self)@.handled_next(old(ready).handled, event),
    {
        match event {
            Event::Checked { running, current_generation } => {
                if keep_streaming(running, current_generation, self.generation) {
                    Action::Receive
                } else {
                    Action::Exit
                }
            },
            Event::Received(message) => match on_socket(message) {
                Incoming::Nothing => Action::Check,
                Incoming::Lost => Action::Exit,
                Incoming::Phase(phase) => {
                    self.phase = Some(phase.clone());
                    Action::PublishPhase(phase)
                },
                Incoming::Session(doc) => Action::DecodeSession(doc),
                Incoming::HoveredChampion(id) => Action::ForwardHovered(id),
            },
            Event::PhasePublished => match self.phase.take() {
                Some(phase) => {
                    if ready.phase_entered(phase.as_str()) {
                        self.phase = Some(phase);
                        Action::Accept
                    } else {
                        Action::Announce { phase, acceptance: None }
                    }
                },
                None => Action::Check,
            },
            Event::Answered(accepted) => {
                let acceptance = ready.answered(accepted);
                match self.phase.take() {
                    Some(phase) => Action::Announce { phase, acceptance: Some(acceptance) },
                    None => Action::Check,
                }
            },
            Event::SessionDecoded(is_session) => {
                if is_session {
                    Action::ForwardSession
                } else {
                    Action::Check
                }
            },
            Event::Done => Action::Check,
        }
    }
}

/// The feed never waits without a check right before: it waits exactly where it
/// was just found that the stream goes on, so that a stream that is switched off
/// or superseded is left after the wait it is in.
pub proof fn every_wait_follows_a_check(feed: FeedView, handled: bool, event: Event)
    ensures
        feed.reaction(handled, event) is Receive <==> (match event {
            Event::Checked { running, current_generation } => goes_on(
                running,
                current_generation,
                feed.generation,
            ),
            _ => false,
        }),
        event is Checked ==> feed.reaction(handled, event) is Receive || feed.reaction(
            handled,
            event,
        ) is Exit,
{
}

/// Every phase that is received is published, and announced under the same
/// name: at once, or after the accept request that it called for was answered,
/// whatever the answer was and whatever the poller did to the ready check in
/// the meantime.
pub proof fn received_phase_is_announced(
    feed: FeedView,
    message: SocketEvent,
    phase: Seq<char>,
    handled: bool,
    later: bool,
    accepted: bool,
)
    requires
        incoming_of_socket(message) == IncomingView::Phase(phase),
    ensures
        ({
            let received = feed.after(handled, Event::Received(message));
            let published = received.after(handled, Event::PhasePublished);
            &&& feed.reaction(handled, Event::Received(message)) == ActionView::PublishPhase(phase)
            &&& if wants_accept(handled, phase) {
                &&& received.reaction(handled, Event::PhasePublished) == ActionView::Accept
                &&& published.reaction(later, Event::Answered(accepted)) == (
                ActionView::Announce {
                    phase,
                    acceptance: Some(acceptance_of(later, accepted)),
                })
            } else {
                received.reaction(handled, Event::PhasePublished) == (ActionView::Announce {
                    phase,
                    acceptance: None,
                })
            }
        }),
{
}

/// The messages the feed does nothing about: none came in time; it is no text;
/// the text is no JSON document; the document has no third element; its `uri` is
/// missing or none of the three; a phase that is no string; a session without
/// data.
pub open spec fn is_ignored(message: SocketEvent) -> bool {
    match message {
        SocketEvent::TimedOut => true,
        SocketEvent::Other => true,
        SocketEvent::Closed => false,
        SocketEvent::Failed => false,
        SocketEvent::Text(text) => match json::json_parsed(text@) {
            None => true,
            Some(doc) => match frame_of(doc) {
                None => true,
                Some(frame) => {
                    ||| frame.uri is None
                    ||| frame.uri != Some(PHASE_URI@) && frame.uri != Some(SESSION_URI@)
                        && frame.uri != Some(HOVERED_CHAMPION_URI@)
                    ||| frame.uri == Some(PHASE_URI@) && !(frame.data is Some
                        && frame.data->0.text is Some)
                    ||| frame.uri == Some(SESSION_URI@) && frame.data is None
                },
            },
        },
    }
}

/// The messages that come to nothing are exactly the ignored ones.
pub proof fn only_ignored_messages_come_to_nothing(message: SocketEvent)
    ensures
        incoming_of_socket(message) is Nothing <==> is_ignored(message),
{
    reveal_strlit("/lol-gameflow/v1/gameflow-phase");
    reveal_strlit("/lol-champ-select/v1/session");
    reveal_strlit("/lol-champ-select/v1/hovered-champion-id");
    assert(PHASE_URI@.len() != SESSION_URI@.len());
    assert(PHASE_URI@.len() != HOVERED_CHAMPION_URI@.len());
    assert(SESSION_URI@.len() != HOVERED_CHAMPION_URI@.len());
}

/// Whether `action` is felt outside the feed: it publishes, accepts, announces,
/// forwards, or ends the stream.
pub open spec fn is_effect(action: ActionView) -> bool {
    !(action is Check || action is Receive || action is DecodeSession)
}

/// What came of a stretch of the stream: the feed, whether the ready check
/// counts as handled, and the actions that were felt outside, in order.
pub struct Course {
    pub feed: FeedView,
    pub handled: bool,
    pub effects: Seq<ActionView>,
}

/// The course of `events`.
pub open spec fn course_of(feed: FeedView, handled: bool, events: Seq<Event>) -> Course
    decreases events.len(),
{
    if events.len() == 0 {
        Course { feed, handled, effects: Seq::empty() }
    } else {
        let action = feed.reaction(handled, events[0]);
        let rest = course_of(
            feed.after(handled, events[0]),
            feed.handled_next(handled, events[0]),
            events.drop_first(),
        );
        Course {
            effects: if is_effect(action) {
                seq![action] + rest.effects
            } else {
                rest.effects
            },
            ..rest
        }
    }
}

/// Whether `events` are the arrival of a message without effect: an ignored one,
/// or a session event whose document turns out to be no session.
pub open spec fn is_without_effect(events: Seq<Event>) -> bool {
    match events[0] {
        Event::Received(message) => {
            ||| events.len() == 1 && is_ignored(message)
            ||| events.len() == 2 && incoming_of_socket(message) is Session && events[1]
                == Event::SessionDecoded(false)
        },
        _ => false,
    }
}

/// A message without effect can be left out of the stream: the feed, the ready
/// check and every publication, accept request, announcement and forward are
/// the same with and without it, and it does not end the stream.
pub proof fn message_without_effect_can_be_left_out(
    feed: FeedView,
    handled: bool,
    before: Seq<Event>,
    message: Seq<Event>,
    later: Seq<Event>,
)
    requires
        is_without_effect(message),
    ensures
        course_of(feed, handled, before + message + later) == course_of(
            feed,
            handled,
            before + later,
        ),
    decreases before.len(),
{
    let with = before + message + later;
    let without = before + later;
    if before.len() > 0 {
        assert(with.drop_first() =~= before.drop_first() + message + later);
        assert(without.drop_first() =~= before.drop_first() + later);
        message_without_effect_can_be_left_out(
            feed.after(handled, before[0]),
            feed.handled_next(handled, before[0]),
            before.drop_first(),
            message,
            later,
        );
    } else {
        assert(without =~= later);
        if let Event::Received(m) = message[0] {
            only_ignored_messages_come_to_nothing(m);
        }
        assert(with[0] == message[0]);
        if message.len() == 1 {
            assert(with.drop_first() =~= later);
        } else {
            assert(with.drop_first()[0] == message[1]);
            assert(with.drop_first().drop_first() =~= later);
            reveal_with_fuel(course_of, 3);
        }
    }
}

/// Any phase but the ready check ends the current one: whatever came before, the
/// next ready check calls for an accept request, and accepting it is counted.
/// The ready check itself does not change whether it was handled.
pub proof fn other_phase_opens_the_next_ready_check(handled: bool, phase: Seq<char>)
    requires
        phase != "ReadyCheck"@,
    ensures
        !wants_accept(handled, phase),
        !handled_after(handled, ReadyEvent::Phase(phase)),
        wants_accept(handled_after(handled, ReadyEvent::Phase(phase)), "ReadyCheck"@),
        handled_after(handled, ReadyEvent::Phase("ReadyCheck"@)) == handled,
{
}

/// An answer counts where it is an acceptance and the first one: a refusal is a
/// failure, the first acceptance is recorded, and every acceptance after it is
/// not recorded again.
pub proof fn first_acceptance_is_recorded(handled: bool, accepted: bool)
    ensures
        acceptance_of(handled, accepted) is Failed <==> !accepted,
        acceptance_of(false, true) is Record,
        acceptance_of(handled_after(handled, ReadyEvent::Answered(true)), true) is AlreadyRecorded,
        !wants_accept(handled_after(handled, ReadyEvent::Answered(true)), "ReadyCheck"@),
{
}

/// Whether the ready check counts as handled, and how many acceptances were
/// recorded, after the client went through `phases` and every accept request
/// that they called for was accepted.
pub open spec fn all_accepted(phases: Seq<Seq<char>>) -> (bool, nat)
    decreases phases.len(),
{
    if phases.len() == 0 {
        (false, 0)
    } else {
        let (handled, count) = all_accepted(phases.drop_last());
        let entered = handled_after(handled, ReadyEvent::Phase(phases.last()));
        if wants_accept(handled, phases.last()) {
            (
                handled_after(entered, ReadyEvent::Answered(true)),
                if acceptance_of(entered, true) is Record {
                    count + 1
                } else {
                    count
                },
            )
        } else {
            (entered, count)
        }
    }
}

/// How many times a ready check begins in `phases`: it is entered, and was not
/// the phase before.
pub open spec fn ready_checks_begun(phases: Seq<Seq<char>>) -> nat
    decreases phases.len(),
{
    if phases.len() == 0 {
        0
    } else {
        let n = phases.len();
        let begins = phases[n - 1] == "ReadyCheck"@ && (n == 1 || phases[n - 2] != "ReadyCheck"@);
        ready_checks_begun(phases.drop_last()) + if begins {
            1nat
        } else {
            0nat
        }
    }
}

/// Every ready check is accepted and counted once: over any run of phases in
/// which each accept request is accepted, as many acceptances are recorded as
/// ready checks begin, neither more nor fewer.
pub proof fn every_ready_check_is_counted(phases: Seq<Seq<char>>)
    ensures
        all_accepted(phases).1 == ready_checks_begun(phases),
        all_accepted(phases).0 == (phases.len() > 0 && phases.last() == "ReadyCheck"@),
    decreases phases.len(),
{
    if phases.len() > 0 {
        every_ready_check_is_counted(phases.drop_last());
    }
}

/// The current stream goes on while the feature is on, and a stream of a feature
/// that is off does not.
pub proof fn current_stream_goes_on(running: bool, generation: u64, other: u64)
    ensures
        goes_on(true, generation, generation),
        !goes_on(false, other, generation),
        goes_on(running, other, generation) ==> other == generation,
{
}

/// A subscription frame is `[5, "`, the name of the event as it is, and `"]`.
pub proof fn subscription_names_its_event(event: Seq<char>)
    ensures
        subscribe_text(event).len() == event.len() + 7,
        subscribe_text(event).take(5) == "[5, \""@,
        subscribe_text(event).subrange(5, 5 + event.len() as int) == event,
        subscribe_text(event).skip(5 + event.len() as int) == "\"]"@,
{
    reveal_strlit("[5, \"");
    reveal_strlit("\"]");
    assert(subscribe_text(event).take(5) =~= "[5, \""@);
    assert(subscribe_text(event).subrange(5, 5 + event.len() as int) =~= event);
    assert(subscribe_text(event).skip(5 + event.len() as int) =~= "\"]"@);
}

/// Whether `doc` is an event frame: an array whose third element is the object
/// `members`.
pub open spec fn carries(doc: Json, members: Map<Seq<char>, Json>) -> bool {
    doc matches Json::Array(items) && items.len() > 2 && items[2] == Json::Object(members)
}

/// An event is read out of the third element of a frame: its `uri` where that is
/// a string, its `data` whole, and as a string or an integer where it is one.
pub proof fn event_is_read_as_it_is(doc: Json, members: Map<Seq<char>, Json>)
    requires
        carries(doc, members),
    ensures
        frame_of(doc) is Some,
        ({
            let frame = frame_of(doc)->0;
            let uri = members["uri"@];
            let data = members["data"@];
            &&& members.dom().contains("uri"@) && uri is Text ==> frame.uri == Some(uri->Text_0)
            &&& !(members.dom().contains("uri"@) && uri is Text) ==> frame.uri is None
            &&& frame.data is Some <==> members.dom().contains("data"@)
            &&& members.dom().contains("data"@) ==> {
                &&& frame.data->0.raw == data
                &&& data is Text ==> frame.data->0.text == Some(data->Text_0)
                &&& !(data is Text) ==> frame.data->0.text is None
                &&& data matches Json::Integer(n) ==> if i64::MIN <= n <= i64::MAX {
                    frame.data->0.integer == Some(n as i64)
                } else {
                    frame.data->0.integer is None
                }
                &&& !(data is Integer) ==> frame.data->0.integer is None
            }
        }),
{
}

/// A document that is no array, or has fewer than three elements, carries no
/// event; a third element that is no object has neither `uri` nor `data`.
pub proof fn other_documents_carry_no_event(doc: Json, items: Seq<Json>)
    ensures
        !(doc is Array) ==> frame_of(doc) is None,
        items.len() <= 2 ==> frame_of(Json::Array(items)) is None,
        items.len() > 2 && !(items[2] is Object) ==> (frame_of(Json::Array(items)) matches Some(f)
            && f.uri is None && f.data is None),
{
}

/// Whether `message` is a text that holds an event with the address `uri` and
/// the members `members`.
pub open spec fn is_event(
    message: SocketEvent,
    uri: Seq<char>,
    members: Map<Seq<char>, Json>,
) -> bool {
    &&& message matches SocketEvent::Text(text)
    &&& json::json_parsed(text@) matches Some(doc)
    &&& carries(doc, members)
    &&& members.dom().contains("uri"@)
    &&& members["uri"@] == Json::Text(uri)
}

/// The three addresses are different.
proof fn lemma_uris_differ()
    ensures
        PHASE_URI@ != SESSION_URI@,
        PHASE_URI@ != HOVERED_CHAMPION_URI@,
        SESSION_URI@ != HOVERED_CHAMPION_URI@,
{
    reveal_strlit("/lol-gameflow/v1/gameflow-phase");
    reveal_strlit("/lol-champ-select/v1/session");
    reveal_strlit("/lol-champ-select/v1/hovered-champion-id");
    assert(PHASE_URI@.len() != SESSION_URI@.len());
    assert(PHASE_URI@.len() != HOVERED_CHAMPION_URI@.len());
    assert(SESSION_URI@.len() != HOVERED_CHAMPION_URI@.len());
}

/// Every hovered champion is forwarded as it is: an integer of the range of
/// `i64` as that integer, a string as the number that it writes in decimal, and
/// as no champion where it writes none; anything else, or nothing, as no
/// champion.
pub proof fn hovered_champion_is_forwarded(
    feed: FeedView,
    handled: bool,
    message: SocketEvent,
    members: Map<Seq<char>, Json>,
    n: i64,
)
    requires
        is_event(message, "/lol-champ-select/v1/hovered-champion-id"@, members),
    ensures
        ({
            let action = feed.reaction(handled, Event::Received(message));
            let data = members["data"@];
            let has_data = members.dom().contains("data"@);
            &&& action is ForwardHovered
            &&& has_data && data == Json::Integer(n as int) ==> action == ActionView::ForwardHovered(
                Some(n),
            )
            &&& has_data && data is Text && text::decimal_value(data->Text_0) == Some(n as int)
                ==> action == ActionView::ForwardHovered(Some(n))
            &&& has_data && data is Text && text::decimal_i64(data->Text_0) is None ==> action
                == ActionView::ForwardHovered(None)
            &&& !has_data || !(data is Integer || data is Text) ==> action
                == ActionView::ForwardHovered(None)
        }),
{
    lemma_uris_differ();
}

/// Every phase that is a string is published as it is, and every session event
/// with data has its whole document decoded.
pub proof fn phases_and_sessions_are_passed_on(
    feed: FeedView,
    handled: bool,
    message: SocketEvent,
    members: Map<Seq<char>, Json>,
    phase: Seq<char>,
    doc: Json,
)
    requires
        members.dom().contains("data"@),
    ensures
        is_event(message, "/lol-gameflow/v1/gameflow-phase"@, members) && members["data"@]
            == Json::Text(phase) ==> feed.reaction(handled, Event::Received(message))
            == ActionView::PublishPhase(phase),
        is_event(message, "/lol-champ-select/v1/session"@, members) && members["data"@] == doc
            ==> feed.reaction(handled, Event::Received(message)) == ActionView::DecodeSession(doc),
{
    lemma_uris_differ();
}

/// Everything else is left aside: an event with any other address or without
/// one, a phase that is no string, a session without data, a text that is no event, and what is no
/// text lead straight to the next check and change nothing.
pub proof fn everything_else_is_left_aside(
    feed: FeedView,
    handled: bool,
    message: SocketEvent,
    uri: Seq<char>,
    members: Map<Seq<char>, Json>,
)
    requires
        ({
            ||| message is TimedOut
            ||| message is Other
            ||| message matches SocketEvent::Text(text) && json::json_parsed(text@) is None
            ||| message matches SocketEvent::Text(text) && json::json_parsed(text@) matches Some(doc)
                && (!(doc is Array) || doc->Array_0.len() <= 2 || !(doc->Array_0[2] is Object))
            ||| message matches SocketEvent::Text(text) && json::json_parsed(text@) matches Some(doc)
                && carries(doc, members) && !(members.dom().contains("uri"@)
                && members["uri"@] is Text)
            ||| is_event(message, uri, members) && uri != "/lol-gameflow/v1/gameflow-phase"@ && uri
                != "/lol-champ-select/v1/session"@ && uri
                != "/lol-champ-select/v1/hovered-champion-id"@
            ||| is_event(message, "/lol-gameflow/v1/gameflow-phase"@, members) && !(
            members.dom().contains("data"@) && members["data"@] is Text)
            ||| is_event(message, "/lol-champ-select/v1/session"@, members)
                && !members.dom().contains("data"@)
        }),
    ensures
        feed.reaction(handled, Event::Received(message)) is Check,
        feed.after(handled, Event::Received(message)) == feed,
        feed.handled_next(handled, Event::Received(message)) == handled,
{
    lemma_uris_differ();
}

/// The stream ends exactly where the socket is closed or fails, or a check finds
/// that it does not go on.
pub proof fn stream_ends_with_its_socket(feed: FeedView, handled: bool, event: Event)
    ensures
        feed.reaction(handled, event) is Exit <==> {
            ||| event == Event::Received(SocketEvent::Closed)
            ||| event == Event::Received(SocketEvent::Failed)
            ||| (event matches Event::Checked { running, current_generation } && !(running
                && current_generation == feed.generation))
        },
{
}

/// The feed keeps its generation, remembers a phase only from its arrival to its
/// announcement, and touches the ready check only where a phase was published or
/// an accept request answered. A decoded session is forwarded, one that is none
/// is not, and what is done leads to the next check.
pub proof fn feed_changes_nothing_else(feed: FeedView, handled: bool, event: Event)
    ensures
        feed.after(handled, event).generation == feed.generation,
        !(event is Received || event is PhasePublished || event is Answered) ==> feed.after(
            handled,
            event,
        ) == feed,
        event is Answered ==> feed.after(handled, event).phase is None,
        event is PhasePublished ==> feed.after(handled, event).phase == feed.phase || feed.after(
            handled,
            event,
        ).phase is None,
        !(event is PhasePublished || event is Answered) ==> feed.handled_next(handled, event)
            == handled,
        feed.phase is None && event is PhasePublished ==> feed.handled_next(handled, event)
            == handled,
        feed.phase matches Some(phase) ==> (event is PhasePublished ==> feed.handled_next(
            handled,
            event,
        ) == (handled && phase == "ReadyCheck"@)),
        event matches Event::Answered(accepted) ==> feed.handled_next(handled, event) == (handled
            || accepted),
        feed.reaction(handled, Event::SessionDecoded(true)) is ForwardSession,
        feed.reaction(handled, Event::SessionDecoded(false)) is Check,
        feed.reaction(handled, Event::Done) is Check,
        feed.phase is None ==> feed.reaction(handled, Event::PhasePublished) is Check,
{
}

/// A hovered champion event is forwarded whatever it carries: with the integer of
/// its data where there is one, else with the number that its text writes, else
/// with no champion.
pub proof fn hovered_frame_is_forwarded(data: Option<PayloadView>, n: i64)
    ensures
        ({
            let incoming = incoming_of(
                FrameView { uri: Some("/lol-champ-select/v1/hovered-champion-id"@), data },
            );
            &&& incoming is HoveredChampion
            &&& data matches Some(d) ==> {
                &&& d.integer == Some(n) ==> incoming == IncomingView::HoveredChampion(Some(n))
                &&& d.integer is None && d.text is Some && text::decimal_value(d.text->0) == Some(
                    n as int,
                ) ==> incoming == IncomingView::HoveredChampion(Some(n))
                &&& d.integer is None && d.text is Some && text::decimal_i64(d.text->0) is None
                    ==> incoming == IncomingView::HoveredChampion(None)
                &&& d.integer is None && d.text is None ==> incoming
                    == IncomingView::HoveredChampion(None)
            }
            &&& data is None ==> incoming == IncomingView::HoveredChampion(None)
        }),
{
    lemma_uris_differ();
}

/// A phase event is forwarded with the text of its data and nothing but that, a
/// session event with its whole data; an event with any other address, or with
/// none, is not forwarded.
pub proof fn other_frames_are_forwarded(uri: Option<Seq<char>>, data: Option<PayloadView>)
    ensures
        ({
            let incoming = incoming_of(FrameView { uri, data });
            &&& uri == Some("/lol-gameflow/v1/gameflow-phase"@) ==> match data {
                Some(d) => match d.text {
                    Some(phase) => incoming == IncomingView::Phase(phase),
                    None => incoming is Nothing,
                },
                None => incoming is Nothing,
            }
            &&& uri == Some("/lol-champ-select/v1/session"@) ==> match data {
                Some(d) => incoming == IncomingView::Session(d.raw),
                None => incoming is Nothing,
            }
            &&& uri != Some("/lol-gameflow/v1/gameflow-phase"@) && uri != Some(
                "/lol-champ-select/v1/session"@,
            ) && uri != Some("/lol-champ-select/v1/hovered-champion-id"@) ==> incoming is Nothing
        }),
{
    lemma_uris_differ();
}

/// A published phase leads to an accept request exactly where it is a ready check
/// that was not handled, and is announced at once otherwise. An answered accept
/// request is announced under the phase that called for it, as recorded exactly
/// where it is the first acceptance. After the announcement the phase is
/// forgotten.
pub proof fn phase_is_accepted_or_announced(feed: FeedView, handled: bool, accepted: bool)
    ensures
        feed.phase matches Some(phase) ==> {
            let action = feed.reaction(handled, Event::PhasePublished);
            let next = feed.after(handled, Event::PhasePublished);
            if phase == "ReadyCheck"@ && !handled {
                action is Accept && next == feed
            } else {
                action == (ActionView::Announce { phase, acceptance: None }) && next.phase is None
            }
        },
        feed.phase matches Some(phase) ==> feed.reaction(handled, Event::Answered(accepted)) == (
        ActionView::Announce {
            phase,
            acceptance: Some(
                match (accepted, handled) {
                    (false, _) => Acceptance::Failed,
                    (true, true) => Acceptance::AlreadyRecorded,
                    (true, false) => Acceptance::Record,
                },
            ),
        }),
        feed.phase is None ==> feed.reaction(handled, Event::Answered(accepted)) is Check,
        feed.after(handled, Event::Answered(accepted)) == (FeedView { phase: None, ..feed }),
{
}

/// A phase that is received is remembered until it is announced.
pub proof fn received_phase_is_remembered(
    feed: FeedView,
    handled: bool,
    message: SocketEvent,
    members: Map<Seq<char>, Json>,
    phase: Seq<char>,
)
    requires
        is_event(message, "/lol-gameflow/v1/gameflow-phase"@, members),
        members.dom().contains("data"@),
        members["data"@] == Json::Text(phase),
    ensures
        feed.after(handled, Event::Received(message)) == (FeedView { phase: Some(phase), ..feed }),
{
    lemma_uris_differ();
}

/// Messages and actions are shown as they are.
pub proof fn messages_and_actions_are_shown_as_they_are(
    phase: String,
    doc: serde_json::Value,
    id: Option<i64>,
    acceptance: Option<Acceptance>,
    frame: Frame,
    feed: Feed,
)
    ensures
        Incoming::Phase(phase)@ == IncomingView::Phase(phase@),
        Incoming::Session(doc)@ == IncomingView::Session(json::json_of(doc)),
        Incoming::HoveredChampion(id)@ == IncomingView::HoveredChampion(id),
        Action::PublishPhase(phase)@ == ActionView::PublishPhase(phase@),
        (Action::Announce { phase, acceptance })@ == (ActionView::Announce {
            phase: phase@,
            acceptance,
        }),
        Action::DecodeSession(doc)@ == ActionView::DecodeSession(json::json_of(doc)),
        Action::ForwardHovered(id)@ == ActionView::ForwardHovered(id),
        Action::Exit@ is Exit,
        Action::Check@ is Check,
        Action::Receive@ is Receive,
        Action::Accept@ is Accept,
        Action::ForwardSession@ is ForwardSession,
        Incoming::Nothing@ is Nothing,
        Incoming::Lost@ is Lost,
        frame@.uri == text::chars_in(frame.uri),
        frame@.data is Some <==> frame.data is Some,
        frame.data matches Some(d) ==> frame@.data->0.integer == d.integer && frame@.data->0.text
            == text::chars_in(d.text) && frame@.data->0.raw == json::json_of(d.raw),
        feed@.generation == feed.generation,
        feed@.phase == text::chars_in(feed.phase),
{
}

} // verus!
