//! The session of a device: the heartbeat on its serial line and its websocket to the server.
//!
//! The device is asked for its short serial number at the start and then again and again.
//! While an answer is awaited the session waits for a limited time only. The first answer
//! opens the websocket; requests of the device are forwarded over it while it is open.

use crate::discovery::{device_url, device_ws_url, law_device_url_names_the_device};
use crate::numbers::{decimal, hex_of_bytes, push_decimal};
use crate::protocol::{
    decoded_hex, heartbeat_line, hex_to_bytes, is_whole_hex, law_bracketed_part_is_found,
    law_request_carries_the_data, line_events, protocol_hex, short_sn, Event, EventView,
    HEARTBEAT_COMMAND, REQUEST_PREFIX, SHORT_SN_PREFIX,
};
use crate::text::{occurs_at, trimmed, trimmed_end, CharClass};
use vstd::prelude::*;
use vstd::string::*;
use vstd::utf8::*;

verus! {

/// The time between two heartbeats, in seconds.
pub const HEARTBEAT_INTERVAL_SECS: u64 = 5;

/// How long an answer to a heartbeat is awaited, in seconds.
pub const SHORT_SN_RESPONSE_TIMEOUT_SECS: u64 = 3;

/// The state of a session.
#[derive(Debug)]
pub struct Session {
    /// The URL of the server.
    pub server_url: String,
    /// Whether the websocket is open.
    pub ws_open: bool,
    /// Whether the websocket is being opened.
    pub connecting: bool,
    /// The short serial number that the device gave last.
    pub current_short_sn: Option<String>,
    /// Whether an answer to a heartbeat is awaited.
    pub waiting_short_sn: bool,
}

/// What a session meets.
#[derive(Debug)]
pub enum SessionInput {
    /// The answer to a heartbeat did not come in time.
    TimedOut,
    /// It is time for the next heartbeat.
    HeartbeatDue,
    /// Something happened on the connections of the device.
    Device(Event),
    /// The websocket is open.
    Connected,
    /// The websocket could not be opened, for the reason given.
    ConnectFailed(String),
}

/// What a session has done.
#[derive(Debug)]
pub enum SessionAction {
    /// Nothing.
    Nothing,
    /// The bytes are written to the serial line.
    WriteSerial(Vec<u8>),
    /// The websocket is opened at the URL; `Connected` or `ConnectFailed` comes next.
    Connect { url: String },
    /// The open websocket is put to use.
    AttachWs,
    /// The text is shown, as an error.
    ShowError(String),
    /// The notice is shown, and the websocket is shut down if it was open.
    CloseWs { notice: String, shut_down: bool },
    /// The bytes are sent over the websocket.
    Forward(Vec<u8>),
    /// The session ends; the text, if any, is shown.
    Stop { text: Option<String> },
}

/// The clock that runs in a session.
#[derive(Debug, Clone, Copy, PartialEq, Eq, Structural)]
pub enum Timer {
    /// The answer to a heartbeat is awaited for so many seconds.
    Answer { secs: u64 },
    /// The next heartbeat is awaited; there is one every so many seconds.
    Heartbeat { secs: u64 },
}

/// The state of a session, as values of the specification.
pub struct SessionView {
    pub server_url: Seq<char>,
    pub ws_open: bool,
    pub connecting: bool,
    pub short_sn: Option<Seq<char>>,
    pub waiting: bool,
}

/// What a session meets, as values of the specification.
pub enum InputView {
    TimedOut,
    HeartbeatDue,
    Device(EventView),
    Connected,
    ConnectFailed(Seq<char>),
}

/// What a session has done, as values of the specification.
pub enum ActionView {
    Nothing,
    WriteSerial(Seq<u8>),
    Connect { url: Seq<char> },
    AttachWs,
    ShowError(Seq<char>),
    CloseWs { notice: Seq<char>, shut_down: bool },
    Forward(Seq<u8>),
    Stop { text: Option<Seq<char>> },
}

impl View for Session {
    type V = SessionView;

    open spec fn view(&self) -> SessionView {
        SessionView {
            server_url: self.server_url@,
            ws_open: self.ws_open,
            connecting: self.connecting,
            short_sn: match self.current_short_sn {
                Some(sn) => Some(sn@),
                None => None,
            },
            waiting: self.waiting_short_sn,
        }
    }
}

impl View for SessionInput {
    type V = InputView;

    open spec fn view(&self) -> InputView {
        match self {
            SessionInput::TimedOut => InputView::TimedOut,
            SessionInput::HeartbeatDue => InputView::HeartbeatDue,
            SessionInput::Device(event) => InputView::Device(event@),
            SessionInput::Connected => InputView::Connected,
            SessionInput::ConnectFailed(reason) => InputView::ConnectFailed(reason@),
        }
    }
}

impl View for SessionAction {
    type V = ActionView;

    open spec fn view(&self) -> ActionView {
        match self {
            SessionAction::Nothing => ActionView::Nothing,
            SessionAction::WriteSerial(bytes) => ActionView::WriteSerial(bytes@),
            SessionAction::Connect { url } => ActionView::Connect { url: url@ },
            SessionAction::AttachWs => ActionView::AttachWs,
            SessionAction::ShowError(text) => ActionView::ShowError(text@),
            SessionAction::CloseWs { notice, shut_down } => ActionView::CloseWs {
                notice: notice@,
                shut_down: *shut_down,
            },
            SessionAction::Forward(bytes) => ActionView::Forward(bytes@),
            SessionAction::Stop { text } => ActionView::Stop {
                text: match text {
                    Some(t) => Some(t@),
                    None => None,
                },
            },
        }
    }
}

/// What a session has done is seen with all its bytes and texts.
pub proof fn law_action_is_seen_whole(action: SessionAction)
    ensures
        match action {
            SessionAction::Nothing => action@ is Nothing,
            SessionAction::WriteSerial(bytes) => action@ == ActionView::WriteSerial(bytes@),
            SessionAction::Connect { url } => action@ == (ActionView::Connect { url: url@ }),
            SessionAction::AttachWs => action@ is AttachWs,
            SessionAction::ShowError(text) => action@ == ActionView::ShowError(text@),
            SessionAction::CloseWs { notice, shut_down } => action@ == (ActionView::CloseWs {
                notice: notice@,
                shut_down,
            }),
            SessionAction::Forward(bytes) => action@ == ActionView::Forward(bytes@),
            SessionAction::Stop { text: Some(t) } => action@ == (ActionView::Stop {
                text: Some(t@),
            }),
            SessionAction::Stop { text: None } => action@ == (ActionView::Stop { text: None }),
        },
{
}

/// What a session meets is seen with all that it holds.
pub proof fn law_input_is_seen_whole(input: SessionInput)
    ensures
        match input {
            SessionInput::TimedOut => input@ is TimedOut,
            SessionInput::HeartbeatDue => input@ is HeartbeatDue,
            SessionInput::Device(Event::ShortSn(sn)) => input@ == InputView::Device(
                EventView::ShortSn(sn@),
            ),
            SessionInput::Device(Event::ProtocolHex(hex)) => input@ == InputView::Device(
                EventView::ProtocolHex(hex@),
            ),
            SessionInput::Device(Event::SerialClosed) => input@ == InputView::Device(
                EventView::SerialClosed,
            ),
            SessionInput::Device(Event::WsClosed) => input@ == InputView::Device(
                EventView::WsClosed,
            ),
            SessionInput::Connected => input@ is Connected,
            SessionInput::ConnectFailed(reason) => input@ == InputView::ConnectFailed(reason@),
        },
{
}

/// A session is seen with the whole URL of its server and the whole short serial number.
pub proof fn law_session_is_seen_whole(session: Session)
    ensures
        session@.server_url == session.server_url@,
        session@.ws_open == session.ws_open,
        session@.connecting == session.connecting,
        session@.waiting == session.waiting_short_sn,
        session.current_short_sn matches Some(sn) ==> session@.short_sn == Some(sn@),
        session.current_short_sn is None ==> session@.short_sn is None,
{
}

// ---------------------------------------------------------------------------
// The rules of a session
// ---------------------------------------------------------------------------

/// A session at its start: the first heartbeat has been sent.
pub open spec fn started(server_url: Seq<char>) -> SessionView {
    SessionView { server_url, ws_open: false, connecting: false, short_sn: None, waiting: true }
}

/// True when a session in this state can meet the input: an answer is missed only while one
/// is awaited and a heartbeat is due only while none is; while the websocket is being opened
/// only the outcome of that comes; and a request that is to be forwarded does not break off
/// in the middle of a byte.
pub open spec fn can_meet(v: SessionView, input: InputView) -> bool {
    match input {
        InputView::TimedOut => !v.connecting && v.waiting,
        InputView::HeartbeatDue => !v.connecting && !v.waiting,
        InputView::Device(EventView::ProtocolHex(hex)) => !v.connecting && (v.ws_open
            ==> is_whole_hex(hex)),
        InputView::Device(_) => !v.connecting,
        InputView::Connected | InputView::ConnectFailed(_) => v.connecting,
    }
}

/// What is said when an answer is missed.
pub open spec fn timeout_text() -> Seq<char> {
    "超过 "@ + decimal(SHORT_SN_RESPONSE_TIMEOUT_SECS as nat)
        + " 秒未收到新的 SerialProtocolShortSN，正在断开并关闭串口。"@
}

/// What is said when the websocket is gone.
pub open spec fn ws_closed_text() -> Seq<char> {
    "由于 websocket 断开，停止串口读取循环。"@
}

/// The state of a session after it met the input.
pub open spec fn next_state(v: SessionView, input: InputView) -> SessionView {
    match input {
        InputView::TimedOut => v,
        InputView::HeartbeatDue => SessionView { waiting: true, ..v },
        InputView::Device(EventView::SerialClosed) => v,
        InputView::Device(EventView::WsClosed) => SessionView { ws_open: false, ..v },
        InputView::Device(EventView::ShortSn(sn)) => SessionView {
            waiting: false,
            short_sn: Some(sn),
            connecting: !v.ws_open,
            ..v
        },
        InputView::Device(EventView::ProtocolHex(_)) => v,
        InputView::Connected => SessionView { ws_open: true, connecting: false, ..v },
        InputView::ConnectFailed(_) => SessionView { connecting: false, ..v },
    }
}

/// What a session has done when it meets the input.
pub open spec fn action_of(v: SessionView, input: InputView) -> ActionView {
    match input {
        InputView::TimedOut => ActionView::Stop { text: Some(timeout_text()) },
        InputView::HeartbeatDue => ActionView::WriteSerial(encode_utf8(HEARTBEAT_COMMAND@)),
        InputView::Device(EventView::SerialClosed) => ActionView::Stop { text: None },
        InputView::Device(EventView::WsClosed) => ActionView::CloseWs {
            notice: ws_closed_text(),
            shut_down: v.ws_open,
        },
        InputView::Device(EventView::ShortSn(sn)) => if v.ws_open {
            ActionView::Nothing
        } else {
            ActionView::Connect { url: device_url(v.server_url, sn) }
        },
        InputView::Device(EventView::ProtocolHex(hex)) => if v.ws_open {
            match decoded_hex(hex) {
                Ok(bytes) => ActionView::Forward(bytes),
                Err(_) => ActionView::Nothing,
            }
        } else {
            ActionView::Nothing
        },
        InputView::Connected => ActionView::AttachWs,
        InputView::ConnectFailed(reason) => ActionView::ShowError("WS 连接失败: "@ + reason),
    }
}

impl Session {
    /// Starts a session with the server at `server_url`; the bytes are the first heartbeat,
    /// which is written to the serial line at once.
    pub fn start(server_url: &str) -> (out: (Session, Vec<u8>))
        ensures
            out.0@ == started(server_url@),
            out.1@ == encode_utf8(HEARTBEAT_COMMAND@),
    {
        let session = Session {
            server_url: server_url.to_string(),
            ws_open: false,
            connecting: false,
            current_short_sn: None,
            waiting_short_sn: true,
        };
        (session, heartbeat_line())
    }

    /// The clock that runs: while an answer is awaited the one that ends the session, else
    /// the one for the next heartbeat.
    pub fn timer(&self) -> (timer: Timer)
        ensures
            self@.waiting ==> timer == (Timer::Answer { secs: SHORT_SN_RESPONSE_TIMEOUT_SECS }),
            !self@.waiting ==> timer == (Timer::Heartbeat { secs: HEARTBEAT_INTERVAL_SECS }),
    {
        if self.waiting_short_sn {
            Timer::Answer { secs: SHORT_SN_RESPONSE_TIMEOUT_SECS }
        } else {
            Timer::Heartbeat { secs: HEARTBEAT_INTERVAL_SECS }
        }
    }

    /// Something happened on the connections of the device.
    pub fn handle_event(&mut self, ev: Event) -> (action: SessionAction)
        requires
            can_meet(old(self)@, InputView::Device(ev@)),
        ensures
            final(self)@ == next_state(old(self)@, InputView::Device(ev@)),
            action@ == action_of(old(self)@, InputView::Device(ev@)),
    {
        match ev {
            Event::SerialClosed => SessionAction::Stop { text: None },
            Event::WsClosed => {
                let shut_down = self.ws_open;
                self.ws_open = false;
                SessionAction::CloseWs {
                    notice: "由于 websocket 断开，停止串口读取循环。".to_string(),
                    shut_down,
                }
            },
            Event::ShortSn(sn) => {
                self.waiting_short_sn = false;
                if self.ws_open {
                    self.current_short_sn = Some(sn);
                    SessionAction::Nothing
                } else {
                    let url = device_ws_url(self.server_url.as_str(), sn.as_str());
                    self.current_short_sn = Some(sn);
                    self.connecting = true;
                    SessionAction::Connect { url }
                }
            },
            Event::ProtocolHex(hex) => {
                if !self.ws_open {
                    return SessionAction::Nothing;
                }
                match hex_to_bytes(hex.as_str()) {
                    Ok(bytes) => SessionAction::Forward(bytes),
                    Err(_) => SessionAction::Nothing,
                }
            },
        }
    }

    /// The session meets an input.
    pub fn step(&mut self, input: SessionInput) -> (action: SessionAction)
        requires
            can_meet(old(self)@, input@),
        ensures
            final(self)@ == next_state(old(self)@, input@),
            action@ == action_of(old(self)@, input@),
    {
        match input {
            SessionInput::TimedOut => {
                let mut text = "超过 ".to_string();
                push_decimal(&mut text, SHORT_SN_RESPONSE_TIMEOUT_SECS);
                text.append(" 秒未收到新的 SerialProtocolShortSN，正在断开并关闭串口。");
                SessionAction::Stop { text: Some(text) }
            },
            SessionInput::HeartbeatDue => {
                self.waiting_short_sn = true;
                SessionAction::WriteSerial(heartbeat_line())
            },
            SessionInput::Device(event) => self.handle_event(event),
            SessionInput::Connected => {
                self.ws_open = true;
                self.connecting = false;
                SessionAction::AttachWs
            },
            SessionInput::ConnectFailed(reason) => {
                self.connecting = false;
                let mut text = "WS 连接失败: ".to_string();
                text.append(reason.as_str());
                SessionAction::ShowError(text)
            },
        }
    }

    /// The session is over; says whether a websocket is left to be shut down.
    pub fn finish(&mut self) -> (shut_down: bool)
        ensures
            shut_down == old(self)@.ws_open,
            final(self)@ == (SessionView { ws_open: false, ..old(self)@ }),
    {
        let shut_down = self.ws_open;
        self.ws_open = false;
        shut_down
    }
}

// ---------------------------------------------------------------------------
// What holds in one step
// ---------------------------------------------------------------------------

/// A session ends when an answer is missed or the serial port is gone, and only then.
pub proof fn law_session_stops_on_silence_or_closed_port(v: SessionView, input: InputView)
    ensures
        action_of(v, input) is Stop <==> (input is TimedOut || input == InputView::Device(
            EventView::SerialClosed,
        )),
{
}

/// A heartbeat is written when it is due and at no other time, an open websocket is put to
/// use at once, a websocket that is gone is shut down if it was open, and a connection that
/// failed is told with the whole reason.
pub proof fn law_each_input_has_its_action(v: SessionView, input: InputView, reason: Seq<char>)
    ensures
        input is HeartbeatDue ==> action_of(v, input) == ActionView::WriteSerial(
            encode_utf8("referee heartbeat\n"@),
        ),
        action_of(v, input) is WriteSerial <==> input is HeartbeatDue,
        action_of(v, input) is AttachWs <==> input is Connected,
        action_of(v, input) is CloseWs <==> input == InputView::Device(EventView::WsClosed),
        action_of(v, input) matches ActionView::CloseWs { shut_down, .. } ==> shut_down == v.ws_open,
        action_of(v, InputView::ConnectFailed(reason)) == ActionView::ShowError(
            "WS 连接失败: "@ + reason,
        ),
        action_of(v, InputView::TimedOut) == (ActionView::Stop {
            text: Some("超过 3 秒未收到新的 SerialProtocolShortSN，正在断开并关闭串口。"@),
        }),
{
    reveal_strlit("超过 3 秒未收到新的 SerialProtocolShortSN，正在断开并关闭串口。");
    reveal_strlit("超过 ");
    reveal_strlit(" 秒未收到新的 SerialProtocolShortSN，正在断开并关闭串口。");
    assert(decimal(3) =~= seq!['3']);
    assert(timeout_text()
        =~= "超过 3 秒未收到新的 SerialProtocolShortSN，正在断开并关闭串口。"@);
}

/// A short serial number that comes while no websocket is open opens the one of that device:
/// its URL is that of the server, `/ws/devices/` and the whole number.
pub proof fn law_websocket_is_that_of_the_device(v: SessionView, sn: Seq<char>)
    requires
        !v.ws_open,
    ensures
        action_of(v, InputView::Device(EventView::ShortSn(sn))) matches ActionView::Connect { url }
            && url == v.server_url + "/ws/devices/"@ + sn && url.skip(
            (v.server_url + "/ws/devices/"@).len() as int,
        ) == sn,
        next_state(v, InputView::Device(EventView::ShortSn(sn))) == (SessionView {
            waiting: false,
            short_sn: Some(sn),
            connecting: true,
            ..v
        }),
{
    law_device_url_names_the_device(v.server_url, sn, sn);
}

/// Only requests of the device are forwarded, only while the websocket is open, and what
/// is forwarded are the bytes that the request spells.
pub proof fn law_only_requests_are_forwarded(v: SessionView, input: InputView, bytes: Seq<u8>)
    ensures
        action_of(v, input) == ActionView::Forward(bytes) <==> (v.ws_open && (
        input matches InputView::Device(EventView::ProtocolHex(hex)) && decoded_hex(hex) == Ok::<
            Seq<u8>,
            Seq<char>,
        >(bytes))),
{
}

/// The websocket is opened only when none is open, for the short serial number that the
/// device just gave; as long as it is open no other is opened.
pub proof fn law_one_websocket_at_a_time(v: SessionView, input: InputView)
    requires
        can_meet(v, input),
        !(v.ws_open && v.connecting),
    ensures
        !(next_state(v, input).ws_open && next_state(v, input).connecting),
        action_of(v, input) is Connect <==> !v.ws_open && (input matches InputView::Device(
            EventView::ShortSn(_),
        )),
        action_of(v, input) is Connect ==> next_state(v, input).connecting,
{
}

/// A request that the device prints in a line, somewhere in it and with any line end, is
/// read from the line and forwarded to the server byte by byte.
pub proof fn law_printed_request_reaches_the_server(
    v: SessionView,
    line: Seq<char>,
    head: Seq<char>,
    data: Seq<u8>,
    upper: bool,
    tail: Seq<char>,
)
    requires
        v.ws_open,
        !v.connecting,
        data.len() > 0,
        trimmed_end(line, CharClass::LineEnd) == head + REQUEST_PREFIX@ + hex_of_bytes(data, upper)
            + "]"@ + tail,
        forall|j: int|
            0 <= j < head.len() ==> !occurs_at(
                trimmed_end(line, CharClass::LineEnd),
                REQUEST_PREFIX@,
                j,
            ),
    ensures
        line_events(line).len() > 0,
        can_meet(v, InputView::Device(line_events(line).last())),
        action_of(v, InputView::Device(line_events(line).last())) == ActionView::Forward(data),
{
    law_request_carries_the_data(head, data, upper, tail);
    let text = trimmed_end(line, CharClass::LineEnd);
    let hex = protocol_hex(text)->0;
    let events = line_events(line);
    assert(events.last() == EventView::ProtocolHex(hex));
}

/// A short serial number that the device prints in a line, somewhere in it and with any
/// line end, is read from the line without the white space around it; it answers the
/// heartbeat, and opens the websocket of that device when none is open.
pub proof fn law_printed_short_sn_answers_the_heartbeat(
    v: SessionView,
    line: Seq<char>,
    head: Seq<char>,
    raw: Seq<char>,
    tail: Seq<char>,
)
    requires
        !v.connecting,
        trimmed(raw, CharClass::WhiteSpace).len() > 0,
        !raw.contains(']'),
        trimmed_end(line, CharClass::LineEnd) == head + SHORT_SN_PREFIX@ + raw + "]"@ + tail,
        forall|j: int|
            0 <= j < head.len() ==> !occurs_at(
                trimmed_end(line, CharClass::LineEnd),
                SHORT_SN_PREFIX@,
                j,
            ),
    ensures
        ({
            let sn = trimmed(raw, CharClass::WhiteSpace);
            let input = InputView::Device(line_events(line)[0]);
            &&& line_events(line).len() > 0
            &&& can_meet(v, input)
            &&& !next_state(v, input).waiting
            &&& next_state(v, input).short_sn == Some(sn)
            &&& action_of(v, input) == if v.ws_open {
                ActionView::Nothing
            } else {
                ActionView::Connect { url: device_url(v.server_url, sn) }
            }
        }),
{
    law_bracketed_part_is_found(head, SHORT_SN_PREFIX@, raw, tail);
    let sn = trimmed(raw, CharClass::WhiteSpace);
    assert(short_sn(trimmed_end(line, CharClass::LineEnd)) == Some(sn));
    assert(line_events(line)[0] == EventView::ShortSn(sn));
}

// ---------------------------------------------------------------------------
// What holds over a whole session
// ---------------------------------------------------------------------------

/// The state of a session after it met the inputs one after the other.
pub open spec fn state_after(v: SessionView, inputs: Seq<InputView>) -> SessionView
    decreases inputs.len(),
{
    if inputs.len() == 0 {
        v
    } else {
        next_state(state_after(v, inputs.drop_last()), inputs.last())
    }
}

/// True when a session can meet the inputs one after the other.
pub open spec fn can_meet_all(v: SessionView, inputs: Seq<InputView>) -> bool
    decreases inputs.len(),
{
    inputs.len() > 0 ==> can_meet_all(v, inputs.drop_last()) && can_meet(
        state_after(v, inputs.drop_last()),
        inputs.last(),
    )
}

/// The short serial number that came last among the inputs.
pub open spec fn last_short_sn(inputs: Seq<InputView>) -> Option<Seq<char>>
    decreases inputs.len(),
{
    if inputs.len() == 0 {
        None
    } else {
        match inputs.last() {
            InputView::Device(EventView::ShortSn(sn)) => Some(sn),
            _ => last_short_sn(inputs.drop_last()),
        }
    }
}

/// True when no short serial number has come since the last heartbeat; the first
/// heartbeat is sent before all inputs.
pub open spec fn is_unanswered(inputs: Seq<InputView>) -> bool
    decreases inputs.len(),
{
    if inputs.len() == 0 {
        true
    } else {
        match inputs.last() {
            InputView::HeartbeatDue => true,
            InputView::Device(EventView::ShortSn(_)) => false,
            _ => is_unanswered(inputs.drop_last()),
        }
    }
}

/// True when the websocket was opened and has not gone since.
pub open spec fn is_connected(inputs: Seq<InputView>) -> bool
    decreases inputs.len(),
{
    if inputs.len() == 0 {
        false
    } else {
        match inputs.last() {
            InputView::Connected => true,
            InputView::Device(EventView::WsClosed) => false,
            _ => is_connected(inputs.drop_last()),
        }
    }
}

/// A session knows the short serial number that came last, awaits an answer exactly when
/// its last heartbeat is unanswered, and uses the websocket exactly while it is open.
pub proof fn law_session_follows_its_history(server_url: Seq<char>, inputs: Seq<InputView>)
    ensures
        ({
            let v = state_after(started(server_url), inputs);
            &&& v.server_url == server_url
            &&& v.short_sn == last_short_sn(inputs)
            &&& v.waiting == is_unanswered(inputs)
            &&& v.ws_open == is_connected(inputs)
        }),
    decreases inputs.len(),
{
    if inputs.len() > 0 {
        law_session_follows_its_history(server_url, inputs.drop_last());
    }
}

/// The websocket is being opened exactly when a short serial number came last and none was
/// open.
pub proof fn law_session_connects_at_a_short_sn(server_url: Seq<char>, inputs: Seq<InputView>)
    requires
        can_meet_all(started(server_url), inputs),
    ensures
        state_after(started(server_url), inputs).connecting <==> inputs.len() > 0 && (
        inputs.last() matches InputView::Device(EventView::ShortSn(_))) && !is_connected(
            inputs.drop_last(),
        ),
    decreases inputs.len(),
{
    if inputs.len() > 0 {
        let before = inputs.drop_last();
        law_session_connects_at_a_short_sn(server_url, before);
        law_session_follows_its_history(server_url, before);
    }
}

/// A session never has two websockets: none is being opened while one is open.
pub proof fn law_session_has_one_websocket(server_url: Seq<char>, inputs: Seq<InputView>)
    requires
        can_meet_all(started(server_url), inputs),
    ensures
        !(state_after(started(server_url), inputs).ws_open && state_after(
            started(server_url),
            inputs,
        ).connecting),
    decreases inputs.len(),
{
    if inputs.len() > 0 {
        let before = inputs.drop_last();
        law_session_has_one_websocket(server_url, before);
        law_one_websocket_at_a_time(state_after(started(server_url), before), inputs.last());
    }
}

/// A session that is ended for silence has a heartbeat without an answer, and a heartbeat is
/// sent only once the one before it was answered.
pub proof fn law_silence_means_an_unanswered_heartbeat(
    server_url: Seq<char>,
    inputs: Seq<InputView>,
)
    requires
        can_meet_all(started(server_url), inputs),
        inputs.len() > 0,
    ensures
        inputs.last() is TimedOut ==> is_unanswered(inputs.drop_last()),
        inputs.last() is HeartbeatDue ==> !is_unanswered(inputs.drop_last()),
{
    law_session_follows_its_history(server_url, inputs.drop_last());
}

} // verus!
