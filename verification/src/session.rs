//! The decisions of the frame loop: the mode of a run, the wait for a key
//! within the budget of a frame, and when the loop ends.

use crate::inputs::SubCommand;
use crate::turntable::ExportStep;
use vstd::prelude::*;

verus! {

/// The most frames that are rendered in a second.
pub const FRAME_RATE_CAP: u64 = 500;

/// The time that one frame may take, in nanoseconds: a second divided by the cap.
pub const FRAME_BUDGET_NANOS: u64 = 2_000_000;

/// How a run goes.
#[derive(Clone, Copy, PartialEq, Eq, Debug, Structural)]
pub enum Mode {
    /// Frames go to the terminal until a key ends the run.
    Interactive,
    /// One frame is printed.
    Still,
    /// The frames of one revolution are printed as a list.
    Export,
}

/// What the loop does after a frame.
#[derive(Clone, Copy, PartialEq, Eq, Debug, Structural)]
pub enum LoopStep {
    /// It renders another frame.
    Again,
    /// It ends.
    Stop,
}

/// The mode that a subcommand asks for: an image with a frame count is an
/// export, an image without is a still.
pub open spec fn mode_of(subcmd: SubCommand) -> Mode {
    match subcmd {
        SubCommand::Interactive => Mode::Interactive,
        SubCommand::Image { webify, width, height } => if webify > 0 {
            Mode::Export
        } else {
            Mode::Still
        },
    }
}

/// The mode of a run.
pub fn mode(subcmd: &SubCommand) -> (m: Mode)
    ensures
        m == mode_of(*subcmd),
{
    match subcmd {
        SubCommand::Interactive => Mode::Interactive,
        SubCommand::Image { webify, width, height } => if *webify > 0 {
            Mode::Export
        } else {
            Mode::Still
        },
    }
}

/// Whether a key ends an interactive run: `q`, or `c` with the control key
/// and no other modifier.
pub fn is_quit_key(key: char, control_only: bool) -> (quit: bool)
    ensures
        quit == (key == 'q' || (key == 'c' && control_only)),
{
    key == 'q' || (key == 'c' && control_only)
}

/// How long the loop may wait for a key when this much of the frame's
/// budget is spent: the rest of the budget, and nothing once it is spent.
/// Only an interactive run waits at all.
pub fn key_wait_nanos(mode: Mode, elapsed_nanos: u64) -> (wait: Option<u64>)
    ensures
        wait == if mode != Mode::Interactive {
            None
        } else if elapsed_nanos >= FRAME_BUDGET_NANOS {
            Some(0u64)
        } else {
            Some((FRAME_BUDGET_NANOS - elapsed_nanos) as u64)
        },
{
    match mode {
        Mode::Interactive => if elapsed_nanos >= FRAME_BUDGET_NANOS {
            Some(0)
        } else {
            Some(FRAME_BUDGET_NANOS - elapsed_nanos)
        },
        Mode::Still => None,
        Mode::Export => None,
    }
}

/// What follows a frame: an interactive run goes on, a still ends after its
/// one frame, and an export ends when its driver says that the frame was
/// the last.
pub fn after_frame(mode: Mode, export_step: ExportStep) -> (step: LoopStep)
    ensures
        step == match mode {
            Mode::Interactive => LoopStep::Again,
            Mode::Still => LoopStep::Stop,
            Mode::Export => match export_step {
                ExportStep::Continue => LoopStep::Again,
                ExportStep::Finished => LoopStep::Stop,
            },
        },
{
    match mode {
        Mode::Interactive => LoopStep::Again,
        Mode::Still => LoopStep::Stop,
        Mode::Export => match export_step {
            ExportStep::Continue => LoopStep::Again,
            ExportStep::Finished => LoopStep::Stop,
        },
    }
}

} // verus!
