//! The tasks of a session: they move lines and messages between the serial port, the
//! websocket and the session, each until it is shut down or its end is gone.

use crate::protocol::{
    event_views, events_of_line, law_command_is_written_byte_by_byte, line_events, send_command,
    send_line, Event, EventView,
};
use vstd::prelude::*;
use vstd::string::*;
use vstd::utf8::*;

verus! {

/// What stands before the reason that the server gave for closing the websocket.
pub const CLOSED_BY_SERVER_LABEL: &'static str = "websocket连接被服务器关闭：";

// ---------------------------------------------------------------------------
// Reading the serial port
// ---------------------------------------------------------------------------

/// What the reader of the serial port meets.
#[derive(Debug)]
pub enum ReaderInput {
    /// The session is over.
    ShutDown,
    /// `count` bytes were read, which are `line`; no bytes mean that the port was closed.
    Read { count: usize, line: String },
    /// Reading failed.
    Failed,
}

/// What the reader has done.
#[derive(Debug)]
pub struct ReaderStep {
    /// What is written to the log file.
    pub log: Option<String>,
    /// What is shown.
    pub notice: Option<&'static str>,
    /// What the session is told.
    pub events: Vec<Event>,
    /// Whether the reader ends.
    pub stop: bool,
}

/// What the reader meets, as values of the specification.
pub enum ReaderInputView {
    ShutDown,
    Read { count: nat, line: Seq<char> },
    Failed,
}

/// What the reader has done, as values of the specification.
pub struct ReaderStepView {
    pub log: Option<Seq<char>>,
    pub notice: Option<Seq<char>>,
    pub events: Seq<EventView>,
    pub stop: bool,
}

impl View for ReaderInput {
    type V = ReaderInputView;

    open spec fn view(&self) -> ReaderInputView {
        match self {
            ReaderInput::ShutDown => ReaderInputView::ShutDown,
            ReaderInput::Read { count, line } => ReaderInputView::Read {
                count: *count as nat,
                line: line@,
            },
            ReaderInput::Failed => ReaderInputView::Failed,
        }
    }
}

impl View for ReaderStep {
    type V = ReaderStepView;

    open spec fn view(&self) -> ReaderStepView {
        ReaderStepView {
            log: match self.log {
                Some(line) => Some(line@),
                None => None,
            },
            notice: match self.notice {
                Some(text) => Some(text@),
                None => None,
            },
            events: event_views(self.events@),
            stop: self.stop,
        }
    }
}

/// What the reader meets is seen with the whole line, and what it has done with every event.
pub proof fn law_reading_is_seen_whole(input: ReaderInput, step: ReaderStep)
    ensures
        match input {
            ReaderInput::ShutDown => input@ is ShutDown,
            ReaderInput::Read { count, line } => input@ == (ReaderInputView::Read {
                count: count as nat,
                line: line@,
            }),
            ReaderInput::Failed => input@ is Failed,
        },
        step.log matches Some(line) ==> step@.log == Some(line@),
        step.log is None ==> step@.log is None,
        step.notice matches Some(text) ==> step@.notice == Some(text@),
        step.notice is None ==> step@.notice is None,
        step@.events == event_views(step.events@),
        step@.stop == step.stop,
{
}

/// What the reader has done when it meets the input: a line goes to the log file as it is,
/// and what it says to the session. The session is told of a port that is gone, but not of
/// its own end.
pub open spec fn reader_step_of(input: ReaderInputView) -> ReaderStepView {
    match input {
        ReaderInputView::ShutDown => ReaderStepView {
            log: None,
            notice: None,
            events: Seq::empty(),
            stop: true,
        },
        ReaderInputView::Read { count, line } => if count == 0 {
            ReaderStepView {
                log: None,
                notice: Some("串口已关闭。"@),
                events: seq![EventView::SerialClosed],
                stop: true,
            }
        } else {
            ReaderStepView { log: Some(line), notice: None, events: line_events(line), stop: false }
        },
        ReaderInputView::Failed => ReaderStepView {
            log: None,
            notice: None,
            events: seq![EventView::SerialClosed],
            stop: true,
        },
    }
}

/// The reader of the serial port meets an input.
pub fn serial_reader_step(input: ReaderInput) -> (step: ReaderStep)
    ensures
        step@ == reader_step_of(input@),
        input matches ReaderInput::Read { count, line } ==> count > 0 ==> (step.log matches Some(raw)
            && raw@ == line@) && event_views(step.events@) == line_events(line@) && !step.stop,
{
    let mut events: Vec<Event> = Vec::new();
    match input {
        ReaderInput::ShutDown => {
            assert(event_views(events@) =~= Seq::<EventView>::empty());
            ReaderStep { log: None, notice: None, events, stop: true }
        },
        ReaderInput::Read { count, line } => {
            if count == 0 {
                events.push(Event::SerialClosed);
                assert(event_views(events@) =~= seq![EventView::SerialClosed]);
                return ReaderStep { log: None, notice: Some("串口已关闭。"), events, stop: true };
            }
            let events = events_of_line(line.as_str());
            ReaderStep { log: Some(line), notice: None, events, stop: false }
        },
        ReaderInput::Failed => {
            events.push(Event::SerialClosed);
            assert(event_views(events@) =~= seq![EventView::SerialClosed]);
            ReaderStep { log: None, notice: None, events, stop: true }
        },
    }
}

/// What the reader has written to the log file after the inputs; it meets none after its end.
pub open spec fn reader_log(inputs: Seq<ReaderInputView>) -> Seq<char>
    decreases inputs.len(),
{
    if inputs.len() == 0 {
        Seq::empty()
    } else {
        let step = reader_step_of(inputs[0]);
        let rest = if step.stop {
            Seq::empty()
        } else {
            reader_log(inputs.drop_first())
        };
        match step.log {
            Some(line) => line + rest,
            None => rest,
        }
    }
}

/// What the reader has told the session after the inputs.
pub open spec fn reader_events(inputs: Seq<ReaderInputView>) -> Seq<EventView>
    decreases inputs.len(),
{
    if inputs.len() == 0 {
        Seq::empty()
    } else {
        let step = reader_step_of(inputs[0]);
        if step.stop {
            step.events
        } else {
            step.events + reader_events(inputs.drop_first())
        }
    }
}

/// The inputs that are lines, as `lines` of bytes that were read.
pub open spec fn read_lines(lines: Seq<Seq<char>>) -> Seq<ReaderInputView> {
    Seq::new(
        lines.len(),
        |i: int| ReaderInputView::Read { count: encode_utf8(lines[i]).len(), line: lines[i] },
    )
}

/// The lines one behind the other.
pub open spec fn joined(lines: Seq<Seq<char>>) -> Seq<char>
    decreases lines.len(),
{
    if lines.len() == 0 {
        Seq::empty()
    } else {
        lines[0] + joined(lines.drop_first())
    }
}

/// What the lines say, one behind the other.
pub open spec fn said(lines: Seq<Seq<char>>) -> Seq<EventView>
    decreases lines.len(),
{
    if lines.len() == 0 {
        Seq::empty()
    } else {
        line_events(lines[0]) + said(lines.drop_first())
    }
}

/// A text with characters in it has bytes in UTF-8.
proof fn lemma_line_has_bytes(line: Seq<char>)
    requires
        line.len() > 0,
    ensures
        encode_utf8(line).len() > 0,
{
    if encode_utf8(line).len() == 0 {
        encode_utf8_decode_utf8(line);
        encode_utf8_decode_utf8(Seq::<char>::empty());
        assert(encode_utf8(line) =~= encode_utf8(Seq::<char>::empty()));
    }
}

/// However the reader ends, the log file holds every line that was read before, empty ones
/// too, as it was read; and the session was told what the lines say, in their order, and at
/// last that the port is gone, unless it was the session itself that ended.
pub proof fn law_reader_passes_on_every_line(lines: Seq<Seq<char>>, last: ReaderInputView)
    requires
        forall|i: int| 0 <= i < lines.len() ==> (#[trigger] lines[i]).len() > 0,
        reader_step_of(last).stop,
    ensures
        reader_log(read_lines(lines).push(last)) == joined(lines),
        reader_events(read_lines(lines).push(last)) == said(lines) + (if last is ShutDown {
            Seq::empty()
        } else {
            seq![EventView::SerialClosed]
        }),
    decreases lines.len(),
{
    let inputs = read_lines(lines).push(last);
    if lines.len() == 0 {
        assert(inputs[0] == last);
        assert(reader_events(inputs) =~= said(lines) + reader_step_of(last).events);
    } else {
        let rest = lines.drop_first();
        assert forall|i: int| 0 <= i < rest.len() implies (#[trigger] rest[i]).len() > 0 by {
            assert(rest[i] == lines[i + 1]);
        }
        law_reader_passes_on_every_line(rest, last);
        lemma_line_has_bytes(lines[0]);
        assert(inputs.drop_first() =~= read_lines(rest).push(last));
        let end = if last is ShutDown {
            Seq::empty()
        } else {
            seq![EventView::SerialClosed]
        };
        assert(line_events(lines[0]) + (said(rest) + end) =~= said(lines) + end);
    }
}

// ---------------------------------------------------------------------------
// Emptying a queue
// ---------------------------------------------------------------------------

/// What a task that empties a queue meets.
#[derive(Debug)]
pub enum QueueInput {
    /// The session is over.
    ShutDown,
    /// Nothing more will come.
    Closed,
    /// A message came.
    Message(Vec<u8>),
    /// The message was passed on.
    Sent,
    /// The message could not be passed on.
    SendFailed,
}

/// What it has done.
#[derive(Debug)]
pub enum QueueStep {
    /// The next message is awaited.
    Wait,
    /// The message is passed on; `Sent` or `SendFailed` comes next.
    Send(Vec<u8>),
    /// The task ends, and the session is told the event, if any.
    Stop { event: Option<Event> },
}

/// What a task that empties a queue meets, as values of the specification.
pub enum QueueInputView {
    ShutDown,
    Closed,
    Message(Seq<u8>),
    Sent,
    SendFailed,
}

/// What it has done, as values of the specification.
pub enum QueueStepView {
    Wait,
    Send(Seq<u8>),
    Stop { event: Option<EventView> },
}

impl View for QueueInput {
    type V = QueueInputView;

    open spec fn view(&self) -> QueueInputView {
        match self {
            QueueInput::ShutDown => QueueInputView::ShutDown,
            QueueInput::Closed => QueueInputView::Closed,
            QueueInput::Message(bytes) => QueueInputView::Message(bytes@),
            QueueInput::Sent => QueueInputView::Sent,
            QueueInput::SendFailed => QueueInputView::SendFailed,
        }
    }
}

/// An event that may be missing, as values of the specification.
pub open spec fn event_view(event: Option<Event>) -> Option<EventView> {
    match event {
        Some(e) => Some(e@),
        None => None,
    }
}

impl View for QueueStep {
    type V = QueueStepView;

    open spec fn view(&self) -> QueueStepView {
        match self {
            QueueStep::Wait => QueueStepView::Wait,
            QueueStep::Send(bytes) => QueueStepView::Send(bytes@),
            QueueStep::Stop { event } => QueueStepView::Stop { event: event_view(*event) },
        }
    }
}

/// What a queue holds, and what is done with it, is seen with all its bytes.
pub proof fn law_queue_is_seen_whole(input: QueueInput, step: QueueStep)
    ensures
        match input {
            QueueInput::ShutDown => input@ is ShutDown,
            QueueInput::Closed => input@ is Closed,
            QueueInput::Message(bytes) => input@ == QueueInputView::Message(bytes@),
            QueueInput::Sent => input@ is Sent,
            QueueInput::SendFailed => input@ is SendFailed,
        },
        match step {
            QueueStep::Wait => step@ is Wait,
            QueueStep::Send(bytes) => step@ == QueueStepView::Send(bytes@),
            QueueStep::Stop { event: Some(e) } => step@ == (QueueStepView::Stop { event: Some(e@) }),
            QueueStep::Stop { event: None } => step@ == (QueueStepView::Stop { event: None }),
        },
{
}

/// What the task has done when it meets the input; `report` is what the session is told when
/// a message cannot be passed on.
pub open spec fn queue_step_of(input: QueueInputView, report: Option<EventView>) -> QueueStepView {
    match input {
        QueueInputView::ShutDown | QueueInputView::Closed => QueueStepView::Stop { event: None },
        QueueInputView::Message(bytes) => QueueStepView::Send(bytes),
        QueueInputView::Sent => QueueStepView::Wait,
        QueueInputView::SendFailed => QueueStepView::Stop { event: report },
    }
}

/// The writer of the serial port meets an input. The session is not told of its end: the
/// reader does that.
pub fn serial_writer_step(input: QueueInput) -> (step: QueueStep)
    ensures
        step@ == queue_step_of(input@, None),
        input matches QueueInput::Message(bytes) ==> (step matches QueueStep::Send(sent) && sent@
            == bytes@),
{
    match input {
        QueueInput::ShutDown | QueueInput::Closed => QueueStep::Stop { event: None },
        QueueInput::Message(bytes) => QueueStep::Send(bytes),
        QueueInput::Sent => QueueStep::Wait,
        QueueInput::SendFailed => QueueStep::Stop { event: None },
    }
}

/// The sender of the websocket meets an input. The session is told of a websocket that is gone.
pub fn ws_send_step(input: QueueInput) -> (step: QueueStep)
    ensures
        step@ == queue_step_of(input@, Some(EventView::WsClosed)),
        input matches QueueInput::Message(bytes) ==> (step matches QueueStep::Send(sent) && sent@
            == bytes@),
{
    match input {
        QueueInput::ShutDown | QueueInput::Closed => QueueStep::Stop { event: None },
        QueueInput::Message(bytes) => QueueStep::Send(bytes),
        QueueInput::Sent => QueueStep::Wait,
        QueueInput::SendFailed => QueueStep::Stop { event: Some(Event::WsClosed) },
    }
}

/// What has been passed on after the inputs, by a task that reports `report`.
pub open spec fn passed_on(
    inputs: Seq<QueueInputView>,
    report: Option<EventView>,
) -> Seq<Seq<u8>>
    decreases inputs.len(),
{
    if inputs.len() == 0 {
        Seq::empty()
    } else {
        match queue_step_of(inputs[0], report) {
            QueueStepView::Wait => passed_on(inputs.drop_first(), report),
            QueueStepView::Send(bytes) => seq![bytes] + passed_on(inputs.drop_first(), report),
            QueueStepView::Stop { .. } => Seq::empty(),
        }
    }
}

/// The inputs when each message comes and is passed on.
pub open spec fn all_sent(messages: Seq<Seq<u8>>) -> Seq<QueueInputView>
    decreases messages.len(),
{
    if messages.len() == 0 {
        Seq::empty()
    } else {
        seq![QueueInputView::Message(messages[0]), QueueInputView::Sent] + all_sent(
            messages.drop_first(),
        )
    }
}

/// A message is passed on with every byte of it, by the writer of the serial port and by the
/// sender of the websocket alike; only a message that cannot be passed on is reported.
pub proof fn law_message_is_passed_on_whole(bytes: Seq<u8>, report: Option<EventView>)
    ensures
        queue_step_of(QueueInputView::Message(bytes), report) matches QueueStepView::Send(sent)
            && sent.len() == bytes.len() && forall|i: int|
            0 <= i < bytes.len() ==> #[trigger] sent[i] == bytes[i],
        queue_step_of(QueueInputView::Sent, report) is Wait,
        queue_step_of(QueueInputView::SendFailed, report) == (QueueStepView::Stop {
            event: report,
        }),
        queue_step_of(QueueInputView::ShutDown, report) == (QueueStepView::Stop { event: None }),
        queue_step_of(QueueInputView::Closed, report) == (QueueStepView::Stop { event: None }),
{
}

/// Messages are passed on unchanged, in their order, and none twice, whatever the task
/// reports when one cannot be passed on.
pub proof fn law_queue_keeps_the_order(messages: Seq<Seq<u8>>, report: Option<EventView>)
    ensures
        passed_on(all_sent(messages), report) == messages,
    decreases messages.len(),
{
    if messages.len() == 0 {
        assert(messages =~= Seq::<Seq<u8>>::empty());
    } else {
        let rest = messages.drop_first();
        law_queue_keeps_the_order(rest, report);
        let inputs = all_sent(messages);
        let behind = inputs.drop_first();
        assert(behind[0] == QueueInputView::Sent);
        assert(behind.drop_first() =~= all_sent(rest));
        assert(passed_on(behind, report) == rest);
        assert(inputs[0] == QueueInputView::Message(messages[0]));
        assert(seq![messages[0]] + rest =~= messages);
    }
}

// ---------------------------------------------------------------------------
// Receiving from the websocket
// ---------------------------------------------------------------------------

/// What the receiver of the websocket meets.
#[derive(Debug)]
pub enum WsInput {
    /// The session is over.
    ShutDown,
    /// Nothing more will come.
    Ended,
    /// Receiving failed.
    Failed,
    /// Bytes for the device came.
    Binary(Vec<u8>),
    /// The server closes the websocket, for the reason given.
    Close(String),
    /// Another message came.
    Other,
    /// The command could not be handed to the writer of the serial port.
    WriterGone,
}

/// What it has done.
#[derive(Debug)]
pub enum WsStep {
    /// The next message is awaited.
    Wait,
    /// The bytes are handed to the writer of the serial port.
    Write(Vec<u8>),
    /// The receiver ends; the reason of the server, if any, is shown, and the session is
    /// told the event, if any.
    Stop { reason: Option<String>, event: Option<Event> },
}

/// What the receiver of the websocket meets, as values of the specification.
pub enum WsInputView {
    ShutDown,
    Ended,
    Failed,
    Binary(Seq<u8>),
    Close(Seq<char>),
    Other,
    WriterGone,
}

/// What it has done, as values of the specification.
pub enum WsStepView {
    Wait,
    Write(Seq<u8>),
    Stop { reason: Option<Seq<char>>, event: Option<EventView> },
}

impl View for WsInput {
    type V = WsInputView;

    open spec fn view(&self) -> WsInputView {
        match self {
            WsInput::ShutDown => WsInputView::ShutDown,
            WsInput::Ended => WsInputView::Ended,
            WsInput::Failed => WsInputView::Failed,
            WsInput::Binary(data) => WsInputView::Binary(data@),
            WsInput::Close(reason) => WsInputView::Close(reason@),
            WsInput::Other => WsInputView::Other,
            WsInput::WriterGone => WsInputView::WriterGone,
        }
    }
}

impl View for WsStep {
    type V = WsStepView;

    open spec fn view(&self) -> WsStepView {
        match self {
            WsStep::Wait => WsStepView::Wait,
            WsStep::Write(bytes) => WsStepView::Write(bytes@),
            WsStep::Stop { reason, event } => WsStepView::Stop {
                reason: match reason {
                    Some(text) => Some(text@),
                    None => None,
                },
                event: event_view(*event),
            },
        }
    }
}

/// What the websocket brings, and what is done with it, is seen with all its bytes and texts.
pub proof fn law_websocket_is_seen_whole(input: WsInput, step: WsStep)
    ensures
        match input {
            WsInput::ShutDown => input@ is ShutDown,
            WsInput::Ended => input@ is Ended,
            WsInput::Failed => input@ is Failed,
            WsInput::Binary(data) => input@ == WsInputView::Binary(data@),
            WsInput::Close(reason) => input@ == WsInputView::Close(reason@),
            WsInput::Other => input@ is Other,
            WsInput::WriterGone => input@ is WriterGone,
        },
        match step {
            WsStep::Wait => step@ is Wait,
            WsStep::Write(bytes) => step@ == WsStepView::Write(bytes@),
            WsStep::Stop { reason, event } => {
                &&& step@ is Stop
                &&& reason matches Some(text) ==> step@->reason == Some(text@)
                &&& reason is None ==> step@->reason is None
                &&& event matches Some(e) ==> step@->event == Some(e@)
                &&& event is None ==> step@->event is None
            },
        },
{
}

/// What the receiver has done when it meets the input: bytes become a command for the
/// device, other messages are passed over, and the session is told of a websocket that is gone.
pub open spec fn ws_step_of(input: WsInputView) -> WsStepView {
    match input {
        WsInputView::ShutDown | WsInputView::WriterGone => WsStepView::Stop {
            reason: None,
            event: None,
        },
        WsInputView::Ended | WsInputView::Failed => WsStepView::Stop {
            reason: None,
            event: Some(EventView::WsClosed),
        },
        WsInputView::Binary(data) => WsStepView::Write(encode_utf8(send_command(data))),
        WsInputView::Close(reason) => WsStepView::Stop {
            reason: Some(reason),
            event: Some(EventView::WsClosed),
        },
        WsInputView::Other => WsStepView::Wait,
    }
}

/// The receiver of the websocket meets an input.
pub fn ws_recv_step(input: WsInput) -> (step: WsStep)
    ensures
        step@ == ws_step_of(input@),
        input matches WsInput::Binary(data) ==> (step matches WsStep::Write(line) && line@
            == encode_utf8(send_command(data@))),
{
    match input {
        WsInput::ShutDown | WsInput::WriterGone => WsStep::Stop { reason: None, event: None },
        WsInput::Ended | WsInput::Failed => WsStep::Stop {
            reason: None,
            event: Some(Event::WsClosed),
        },
        WsInput::Binary(data) => WsStep::Write(send_line(data.as_slice())),
        WsInput::Close(reason) => WsStep::Stop {
            reason: Some(reason),
            event: Some(Event::WsClosed),
        },
        WsInput::Other => WsStep::Wait,
    }
}

/// What the receiver has handed to the writer of the serial port after the inputs.
pub open spec fn commands_after(inputs: Seq<WsInputView>) -> Seq<Seq<u8>>
    decreases inputs.len(),
{
    if inputs.len() == 0 {
        Seq::empty()
    } else {
        match ws_step_of(inputs[0]) {
            WsStepView::Wait => commands_after(inputs.drop_first()),
            WsStepView::Write(bytes) => seq![bytes] + commands_after(inputs.drop_first()),
            WsStepView::Stop { .. } => Seq::empty(),
        }
    }
}

/// The commands for the bytes that came before the receiver ended.
pub open spec fn commands_for(inputs: Seq<WsInputView>) -> Seq<Seq<u8>>
    decreases inputs.len(),
{
    if inputs.len() == 0 {
        Seq::empty()
    } else {
        match inputs[0] {
            WsInputView::Binary(data) => seq![encode_utf8(send_command(data))] + commands_for(
                inputs.drop_first(),
            ),
            WsInputView::Other => commands_for(inputs.drop_first()),
            _ => Seq::empty(),
        }
    }
}

/// The device is sent one command for each message of bytes, in their order.
pub proof fn law_each_message_becomes_a_command(inputs: Seq<WsInputView>)
    ensures
        commands_after(inputs) == commands_for(inputs),
    decreases inputs.len(),
{
    if inputs.len() > 0 {
        law_each_message_becomes_a_command(inputs.drop_first());
    }
}

/// Bytes of the server become a command of which all of them can be read back, other
/// messages become none, and the reason of the server is shown whole.
pub proof fn law_server_reaches_the_device(data: Seq<u8>, reason: Seq<char>)
    ensures
        ws_step_of(WsInputView::Binary(data)) matches WsStepView::Write(line) && ({
            let row = "0123456789ABCDEF"@;
            &&& line.len() == 14 + 2 * data.len()
            &&& forall|i: int| 0 <= i < 13 ==> #[trigger] line[i] == "referee send "@[i] as u8
            &&& forall|i: int|
                #![trigger data[i]]
                0 <= i < data.len() ==> line[13 + 2 * i] == row[data[i] as int / 16] as u8
                    && line[14 + 2 * i] == row[data[i] as int % 16] as u8
            &&& line.last() == 10
        }),
        ws_step_of(WsInputView::Other) is Wait,
        ws_step_of(WsInputView::Close(reason)) == (WsStepView::Stop {
            reason: Some(reason),
            event: Some(EventView::WsClosed),
        }),
{
    law_command_is_written_byte_by_byte(data);
}

/// The session is told that the websocket is gone exactly when the receiver ends because of it.
pub proof fn law_lost_websocket_is_reported(input: WsInputView)
    ensures
        ws_step_of(input) matches WsStepView::Stop { event, .. } ==> (event == Some(
            EventView::WsClosed,
        ) <==> (input is Ended || input is Failed || input is Close)),
        ws_step_of(input) is Stop <==> !(input is Binary || input is Other),
{
}

} // verus!
