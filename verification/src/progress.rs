//! The progress bar of a flash.

use vstd::prelude::*;
use vstd::string::*;

verus! {

/// Whether a progress bar is shown.
pub struct Progress {
    pub open: bool,
}

/// What is done to the progress bar.
#[derive(Debug)]
pub enum ProgressAction {
    /// Nothing.
    Nothing,
    /// A new bar of this length is shown.
    Open { len: u64 },
    /// The bar moves to this position.
    MoveTo { pos: u64 },
    /// The bar shows this message.
    Say { message: &'static str },
    /// The bar ends with this message.
    Finish { message: &'static str },
}

impl Progress {
    /// No bar is shown.
    pub fn new() -> (progress: Progress)
        ensures
            !progress.open,
    {
        Progress { open: false }
    }

    /// The flash of `total` steps begins: a bar of that length is shown.
    pub fn init(&mut self, total: usize) -> (action: ProgressAction)
        ensures
            final(self).open,
            action == (ProgressAction::Open { len: total as u64 }),
    {
        self.open = true;
        ProgressAction::Open { len: total as u64 }
    }

    /// `current` steps are done: a bar that is shown moves there.
    pub fn update(&self, current: usize) -> (action: ProgressAction)
        ensures
            self.open ==> action == (ProgressAction::MoveTo { pos: current as u64 }),
            !self.open ==> action == ProgressAction::Nothing,
    {
        if self.open {
            ProgressAction::MoveTo { pos: current as u64 }
        } else {
            ProgressAction::Nothing
        }
    }

    /// The written flash is being verified: a bar that is shown says so.
    pub fn verifying(&self) -> (action: ProgressAction)
        ensures
            self.open ==> (action matches ProgressAction::Say { message } && message@
                == "正在验证..."@),
            !self.open ==> action == ProgressAction::Nothing,
    {
        if self.open {
            ProgressAction::Say { message: "正在验证..." }
        } else {
            ProgressAction::Nothing
        }
    }

    /// The flash is over, or was not needed: a bar that is shown ends.
    pub fn finish(&mut self, skipped: bool) -> (action: ProgressAction)
        ensures
            !final(self).open,
            old(self).open ==> (action matches ProgressAction::Finish { message } && message@ == (
            if skipped {
                "已跳过"@
            } else {
                "完成"@
            })),
            !old(self).open ==> action == ProgressAction::Nothing,
    {
        if self.open {
            self.open = false;
            if skipped {
                ProgressAction::Finish { message: "已跳过" }
            } else {
                ProgressAction::Finish { message: "完成" }
            }
        } else {
            ProgressAction::Nothing
        }
    }
}

} // verus!
