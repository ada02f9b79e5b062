//! The recording of a device's output: what is shown and what is kept.

use crate::text::{
    chars_of, law_line_end_is_cut_off, only_line_ends, trim_end, trimmed_end, CharClass,
};
use vstd::prelude::*;
use vstd::string::*;

verus! {

/// The colors in which lines are shown.
#[derive(Debug, Clone, Copy, PartialEq, Eq, Structural)]
pub enum LineColor {
    Green,
    Yellow,
    Red,
    White,
}

/// The color of a line, by the letter of its log level.
pub open spec fn color_of(text: Seq<char>) -> LineColor {
    if text.len() > 0 && text[0] == 'I' {
        LineColor::Green
    } else if text.len() > 0 && text[0] == 'W' {
        LineColor::Yellow
    } else if text.len() > 0 && text[0] == 'E' {
        LineColor::Red
    } else {
        LineColor::White
    }
}

/// The first letter alone decides: `I` is green, `W` yellow and `E` red; a line that starts
/// otherwise, or is empty, is white.
pub proof fn law_first_letter_decides_the_color(first: char, rest: Seq<char>)
    ensures
        color_of(seq![first] + rest) is Green <==> first == 'I',
        color_of(seq![first] + rest) is Yellow <==> first == 'W',
        color_of(seq![first] + rest) is Red <==> first == 'E',
        color_of(Seq::empty()) is White,
{
}

/// Picks the color of a line.
pub fn line_color(text: &str) -> (color: LineColor)
    ensures
        color == color_of(text@),
{
    let chars = chars_of(text);
    if chars.len() == 0 {
        return LineColor::White;
    }
    let first = chars[0];
    if first == 'I' {
        LineColor::Green
    } else if first == 'W' {
        LineColor::Yellow
    } else if first == 'E' {
        LineColor::Red
    } else {
        LineColor::White
    }
}

/// What came of reading a line.
#[derive(Debug)]
pub enum LogInput {
    /// `count` bytes were read, which are `line` with the line end that it had; no bytes mean
    /// that the port was closed.
    Read { count: usize, line: String },
    /// Nothing came in time.
    TimedOut,
    /// Reading failed, for the reason given.
    Failed(String),
}

/// What is done with it.
#[derive(Debug)]
pub enum LogStep {
    /// Nothing: the next line is read.
    Skip,
    /// `text` is shown in `color`, and `raw` is written to the log file.
    Record { text: String, color: LineColor, raw: String },
    /// The recording ends because the port was closed.
    Closed(String),
    /// The recording ends because of an error.
    Failed(String),
}

/// What came of reading a line, as values of the specification.
pub enum LogInputView {
    Read { count: nat, line: Seq<char> },
    TimedOut,
    Failed(Seq<char>),
}

/// What is done with it, as values of the specification.
pub enum LogStepView {
    Skip,
    Record { text: Seq<char>, color: LineColor, raw: Seq<char> },
    Closed(Seq<char>),
    Failed(Seq<char>),
}

impl View for LogInput {
    type V = LogInputView;

    open spec fn view(&self) -> LogInputView {
        match self {
            LogInput::Read { count, line } => LogInputView::Read {
                count: *count as nat,
                line: line@,
            },
            LogInput::TimedOut => LogInputView::TimedOut,
            LogInput::Failed(reason) => LogInputView::Failed(reason@),
        }
    }
}

impl View for LogStep {
    type V = LogStepView;

    open spec fn view(&self) -> LogStepView {
        match self {
            LogStep::Skip => LogStepView::Skip,
            LogStep::Record { text, color, raw } => LogStepView::Record {
                text: text@,
                color: *color,
                raw: raw@,
            },
            LogStep::Closed(text) => LogStepView::Closed(text@),
            LogStep::Failed(text) => LogStepView::Failed(text@),
        }
    }
}

/// What came of reading a line, and what is done with it, is seen whole.
pub proof fn law_recording_is_seen_whole(input: LogInput, step: LogStep)
    ensures
        match input {
            LogInput::Read { count, line } => input@ == (LogInputView::Read {
                count: count as nat,
                line: line@,
            }),
            LogInput::TimedOut => input@ is TimedOut,
            LogInput::Failed(reason) => input@ == LogInputView::Failed(reason@),
        },
        match step {
            LogStep::Skip => step@ is Skip,
            LogStep::Record { text, color, raw } => step@ == (LogStepView::Record {
                text: text@,
                color,
                raw: raw@,
            }),
            LogStep::Closed(text) => step@ == LogStepView::Closed(text@),
            LogStep::Failed(text) => step@ == LogStepView::Failed(text@),
        },
{
}

/// What is done with what came of reading a line.
pub open spec fn log_step_of(input: LogInputView) -> LogStepView {
    match input {
        LogInputView::Read { count, line } => {
            let text = trimmed_end(line, CharClass::LineEnd);
            if count == 0 {
                LogStepView::Closed("串口已关闭。"@)
            } else if text.len() == 0 {
                LogStepView::Skip
            } else {
                LogStepView::Record { text, color: color_of(text), raw: line }
            }
        },
        LogInputView::TimedOut => LogStepView::Skip,
        LogInputView::Failed(reason) => LogStepView::Failed("读取串口错误："@ + reason),
    }
}

/// A line is shown without its line end and kept with it; a line that is nothing but a line
/// end is passed over. No bytes end the recording, an error ends it and is told with the whole
/// reason, and a time-out does not end it.
pub proof fn law_line_is_shown_and_kept(
    text: Seq<char>,
    end: Seq<char>,
    count: nat,
    reason: Seq<char>,
)
    requires
        only_line_ends(end),
        text.len() > 0 ==> text.last() != '\r' && text.last() != '\n',
    ensures
        count > 0 && text.len() > 0 ==> log_step_of(LogInputView::Read { count, line: text + end })
            == (LogStepView::Record { text, color: color_of(text), raw: text + end }),
        count > 0 && text.len() == 0 ==> log_step_of(
            LogInputView::Read { count, line: text + end },
        ) is Skip,
        count == 0 ==> log_step_of(LogInputView::Read { count, line: text + end }) is Closed,
        log_step_of(LogInputView::TimedOut) is Skip,
        log_step_of(LogInputView::Failed(reason)) == LogStepView::Failed(
            "读取串口错误："@ + reason,
        ),
{
    law_line_end_is_cut_off(text, end);
}

/// Decides what is done with what came of reading a line.
pub fn log_step(input: LogInput) -> (step: LogStep)
    ensures
        step@ == log_step_of(input@),
        input matches LogInput::Read { line, .. } ==> (step matches LogStep::Record { raw, .. }
            ==> raw@ == line@),
{
    match input {
        LogInput::Read { count, line } => {
            if count == 0 {
                return LogStep::Closed("串口已关闭。".to_string());
            }
            let text = trim_end(line.as_str(), CharClass::LineEnd);
            if text.is_empty() {
                return LogStep::Skip;
            }
            let color = line_color(text);
            let text = text.to_string();
            LogStep::Record { text, color, raw: line }
        },
        LogInput::TimedOut => LogStep::Skip,
        LogInput::Failed(reason) => {
            let mut text = "读取串口错误：".to_string();
            text.append(reason.as_str());
            LogStep::Failed(text)
        },
    }
}

/// What is in the log file after `inputs`: the recording ends at the first input that ends it.
pub open spec fn log_file_after(inputs: Seq<LogInputView>) -> Seq<char>
    decreases inputs.len(),
{
    if inputs.len() == 0 {
        Seq::empty()
    } else {
        match log_step_of(inputs[0]) {
            LogStepView::Skip => log_file_after(inputs.drop_first()),
            LogStepView::Record { raw, .. } => raw + log_file_after(inputs.drop_first()),
            LogStepView::Closed(_) | LogStepView::Failed(_) => Seq::empty(),
        }
    }
}

/// True of an input that ends the recording.
pub open spec fn ends_recording(input: LogInputView) -> bool {
    match input {
        LogInputView::Read { count, .. } => count == 0,
        LogInputView::TimedOut => false,
        LogInputView::Failed(_) => true,
    }
}

/// The lines that came in until the recording ended, one behind the other, without those
/// that hold nothing but a line end.
pub open spec fn kept_lines(inputs: Seq<LogInputView>) -> Seq<char>
    decreases inputs.len(),
{
    if inputs.len() == 0 || ends_recording(inputs[0]) {
        Seq::empty()
    } else {
        let rest = kept_lines(inputs.drop_first());
        match inputs[0] {
            LogInputView::Read { line, .. } if trimmed_end(line, CharClass::LineEnd).len() > 0 =>
                line + rest,
            _ => rest,
        }
    }
}

/// The log file holds every line that came in, as it came in, but for the empty ones.
pub proof fn law_log_file_holds_the_lines(inputs: Seq<LogInputView>)
    ensures
        log_file_after(inputs) == kept_lines(inputs),
    decreases inputs.len(),
{
    if inputs.len() > 0 {
        law_log_file_holds_the_lines(inputs.drop_first());
    }
}

} // verus!
