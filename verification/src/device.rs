//! The run of a device: its log file is created, its port is opened, its session runs.

use crate::log_file::{is_stamp, log_name, make_log_filename, sanitized_serial};
use crate::ports::PortInfo;
use vstd::prelude::*;
use vstd::string::*;

verus! {

/// How far the run of a device has come.
#[derive(Debug, Clone, Copy, PartialEq, Eq, Structural)]
pub enum Stage {
    /// The log file is being created.
    CreatingLog,
    /// The port is being opened.
    OpeningPort,
    /// The session runs.
    Running,
    /// The run is over.
    Over,
}

/// The run of a device.
#[derive(Debug)]
pub struct DeviceRun {
    pub port_name: String,
    pub log_filename: String,
    pub stage: Stage,
}

/// What is done next.
#[derive(Debug)]
pub enum DeviceAction {
    /// The log file is there: its name is shown, and the port is opened.
    OpenPort { log_filename: String },
    /// The port is open: its name is shown, and the session runs.
    RunSession { port_name: String },
    /// The run is over before there was a session; the text is shown, as an error.
    GiveUp { error: String },
    /// The session is over: the error of the session, if any, is shown, then the name of the port.
    Finish { failure: Option<String>, port_name: String },
}

/// The run of a device, as values of the specification.
pub struct RunView {
    pub port_name: Seq<char>,
    pub log_filename: Seq<char>,
    pub stage: Stage,
}

/// What is done next, as values of the specification.
pub enum DeviceActionView {
    OpenPort { log_filename: Seq<char> },
    RunSession { port_name: Seq<char> },
    GiveUp { error: Seq<char> },
    Finish { failure: Option<Seq<char>>, port_name: Seq<char> },
}

impl View for DeviceRun {
    type V = RunView;

    open spec fn view(&self) -> RunView {
        RunView {
            port_name: self.port_name@,
            log_filename: self.log_filename@,
            stage: self.stage,
        }
    }
}

impl View for DeviceAction {
    type V = DeviceActionView;

    open spec fn view(&self) -> DeviceActionView {
        match self {
            DeviceAction::OpenPort { log_filename } => DeviceActionView::OpenPort {
                log_filename: log_filename@,
            },
            DeviceAction::RunSession { port_name } => DeviceActionView::RunSession {
                port_name: port_name@,
            },
            DeviceAction::GiveUp { error } => DeviceActionView::GiveUp { error: error@ },
            DeviceAction::Finish { failure, port_name } => DeviceActionView::Finish {
                failure: match failure {
                    Some(text) => Some(text@),
                    None => None,
                },
                port_name: port_name@,
            },
        }
    }
}

/// What is said when the log file cannot be created.
pub open spec fn log_error_text(log_filename: Seq<char>, reason: Seq<char>) -> Seq<char> {
    "创建设备日志文件失败（"@ + log_filename + "）："@ + reason
}

/// What is said when the port cannot be opened.
pub open spec fn open_error_text(port_name: Seq<char>, reason: Seq<char>) -> Seq<char> {
    "打开串口 "@ + port_name + " 失败："@ + reason
}

/// What is said when the session ends with an error.
pub open spec fn session_error_text(port_name: Seq<char>, reason: Seq<char>) -> Seq<char> {
    "串口转发运行出错（"@ + port_name + "）："@ + reason
}

/// The stage after the outcome of the present one.
pub open spec fn next_stage(stage: Stage, success: bool) -> Stage {
    match stage {
        Stage::CreatingLog if success => Stage::OpeningPort,
        Stage::OpeningPort if success => Stage::Running,
        _ => Stage::Over,
    }
}

/// What is done after the outcome of the present stage; `reason` says why it failed.
pub open spec fn action_after(v: RunView, reason: Option<Seq<char>>) -> DeviceActionView {
    match (v.stage, reason) {
        (Stage::CreatingLog, None) => DeviceActionView::OpenPort { log_filename: v.log_filename },
        (Stage::CreatingLog, Some(e)) => DeviceActionView::GiveUp {
            error: log_error_text(v.log_filename, e),
        },
        (Stage::OpeningPort, None) => DeviceActionView::RunSession { port_name: v.port_name },
        (Stage::OpeningPort, Some(e)) => DeviceActionView::GiveUp {
            error: open_error_text(v.port_name, e),
        },
        (_, None) => DeviceActionView::Finish { failure: None, port_name: v.port_name },
        (_, Some(e)) => DeviceActionView::Finish {
            failure: Some(session_error_text(v.port_name, e)),
            port_name: v.port_name,
        },
    }
}

/// The reason in the outcome of a stage.
pub open spec fn reason_of(outcome: Result<(), String>) -> Option<Seq<char>> {
    match outcome {
        Ok(_) => None,
        Err(e) => Some(e@),
    }
}

impl DeviceRun {
    /// Starts the run of the device at `port`: the log file that it names is created first.
    pub fn start(port: &PortInfo) -> (run: DeviceRun)
        ensures
            run@.port_name == port@.name,
            run@.stage == Stage::CreatingLog,
            exists|stamp: Seq<char>|
                is_stamp(stamp) && run@.log_filename == #[trigger] log_name(
                    sanitized_serial(port@),
                    stamp,
                ),
    {
        DeviceRun {
            port_name: port.name.clone(),
            log_filename: make_log_filename(port),
            stage: Stage::CreatingLog,
        }
    }

    /// The present stage is over, with success or with the reason why it failed.
    pub fn step(&mut self, outcome: Result<(), String>) -> (action: DeviceAction)
        requires
            old(self)@.stage != Stage::Over,
        ensures
            final(self)@ == (RunView {
                stage: next_stage(old(self)@.stage, outcome is Ok),
                ..old(self)@
            }),
            action@ == action_after(old(self)@, reason_of(outcome)),
    {
        match self.stage {
            Stage::CreatingLog => match outcome {
                Ok(_) => {
                    self.stage = Stage::OpeningPort;
                    DeviceAction::OpenPort { log_filename: self.log_filename.clone() }
                },
                Err(e) => {
                    self.stage = Stage::Over;
                    let mut error = "创建设备日志文件失败（".to_string();
                    error.append(self.log_filename.as_str());
                    error.append("）：");
                    error.append(e.as_str());
                    DeviceAction::GiveUp { error }
                },
            },
            Stage::OpeningPort => match outcome {
                Ok(_) => {
                    self.stage = Stage::Running;
                    DeviceAction::RunSession { port_name: self.port_name.clone() }
                },
                Err(e) => {
                    self.stage = Stage::Over;
                    let mut error = "打开串口 ".to_string();
                    error.append(self.port_name.as_str());
                    error.append(" 失败：");
                    error.append(e.as_str());
                    DeviceAction::GiveUp { error }
                },
            },
            _ => {
                self.stage = Stage::Over;
                let port_name = self.port_name.clone();
                match outcome {
                    Ok(_) => DeviceAction::Finish { failure: None, port_name },
                    Err(e) => {
                        let mut text = "串口转发运行出错（".to_string();
                        text.append(self.port_name.as_str());
                        text.append("）：");
                        text.append(e.as_str());
                        DeviceAction::Finish { failure: Some(text), port_name }
                    },
                }
            },
        }
    }
}

/// A run is seen with its whole names, and so is what is done next.
pub proof fn law_run_is_seen_whole(run: DeviceRun, action: DeviceAction)
    ensures
        run@.port_name == run.port_name@,
        run@.log_filename == run.log_filename@,
        run@.stage == run.stage,
        match action {
            DeviceAction::OpenPort { log_filename } => action@ == (DeviceActionView::OpenPort {
                log_filename: log_filename@,
            }),
            DeviceAction::RunSession { port_name } => action@ == (DeviceActionView::RunSession {
                port_name: port_name@,
            }),
            DeviceAction::GiveUp { error } => action@ == (DeviceActionView::GiveUp {
                error: error@,
            }),
            DeviceAction::Finish { failure: Some(text), port_name } => action@ == (
            DeviceActionView::Finish { failure: Some(text@), port_name: port_name@ }),
            DeviceAction::Finish { failure: None, port_name } => action@ == (
            DeviceActionView::Finish { failure: None, port_name: port_name@ }),
        },
{
}

/// Success leads from the log file to the port, from the port to the session and from there
/// to the end; a failure is told with the whole name of what failed and the whole reason.
pub proof fn law_each_outcome_has_its_action(v: RunView, reason: Seq<char>)
    ensures
        v.stage is CreatingLog ==> {
            &&& action_after(v, None) == (DeviceActionView::OpenPort {
                log_filename: v.log_filename,
            })
            &&& action_after(v, Some(reason)) == (DeviceActionView::GiveUp {
                error: "创建设备日志文件失败（"@ + v.log_filename + "）："@ + reason,
            })
        },
        v.stage is OpeningPort ==> {
            &&& action_after(v, None) == (DeviceActionView::RunSession { port_name: v.port_name })
            &&& action_after(v, Some(reason)) == (DeviceActionView::GiveUp {
                error: "打开串口 "@ + v.port_name + " 失败："@ + reason,
            })
        },
        v.stage is Running ==> {
            &&& action_after(v, None) == (DeviceActionView::Finish {
                failure: None,
                port_name: v.port_name,
            })
            &&& action_after(v, Some(reason)) == (DeviceActionView::Finish {
                failure: Some("串口转发运行出错（"@ + v.port_name + "）："@ + reason),
                port_name: v.port_name,
            })
        },
{
}

/// The stage after a sequence of outcomes.
pub open spec fn stage_after(outcomes: Seq<bool>) -> Stage
    decreases outcomes.len(),
{
    if outcomes.len() == 0 {
        Stage::CreatingLog
    } else {
        next_stage(stage_after(outcomes.drop_last()), outcomes.last())
    }
}

/// The run is over after three outcomes or after the first failure before, and only then.
pub proof fn law_run_ends(outcomes: Seq<bool>)
    ensures
        stage_after(outcomes) == Stage::Over <==> outcomes.len() >= 3 || outcomes.contains(false),
    decreases outcomes.len(),
{
    if outcomes.len() > 0 {
        let before = outcomes.drop_last();
        law_run_ends(before);
        reveal_with_fuel(stage_after, 4);
        assert(outcomes =~= before.push(outcomes.last()));
        if before.contains(false) {
            let i = choose|i: int| 0 <= i < before.len() && before[i] == false;
            assert(outcomes[i] == false);
        }
        if outcomes.contains(false) && outcomes.last() {
            let i = choose|i: int| 0 <= i < outcomes.len() && outcomes[i] == false;
            assert(before[i] == false);
        }
        if !outcomes.last() {
            assert(outcomes[outcomes.len() - 1] == false);
        }
    }
}

/// The session runs only when the log file was created and the port was opened.
pub proof fn law_session_runs_on_an_open_port(outcomes: Seq<bool>)
    ensures
        stage_after(outcomes) == Stage::Running <==> outcomes == seq![true, true],
{
    reveal_with_fuel(stage_after, 4);
    if outcomes.len() >= 3 {
        law_run_ends(outcomes);
    } else if outcomes.len() == 2 {
        assert(outcomes.drop_last().last() == outcomes[0]);
        if stage_after(outcomes) == Stage::Running {
            assert(outcomes =~= seq![true, true]);
        }
    }
}

} // verus!
