use vstd::prelude::*;

verus! {

/// How the background execution loop advances the machine: only on explicit
/// single-step messages, or continuously at the paced rate.
#[derive(Clone, Copy, Debug, PartialEq, Eq, Structural)]
pub enum ExecutionMode {
    StepByStep,
    Continuous,
}

/// A control message sent asynchronously to the execution loop.
#[derive(Clone, Copy, Debug, PartialEq, Eq, Structural)]
pub enum Message {
    ChangeMode(ExecutionMode),
    ExecuteOne,
    Exit,
}

/// What one cycle of the execution loop must do: the mode to carry into the
/// next cycle, how many instructions to execute now, and whether to leave
/// the loop.
#[derive(Clone, Copy, Debug, PartialEq, Eq, Structural)]
pub struct CyclePlan {
    pub mode: ExecutionMode,
    pub steps: u8,
    pub exit: bool,
}

/// The decision one cycle of the execution loop makes from the mode it is
/// in and the pending control message, if any. An exit message ends the
/// loop at once, executing nothing. A mode change applies immediately, so
/// the same cycle already runs continuously. A single-step message executes
/// one instruction, on top of the one a continuous-mode cycle executes
/// anyway; a cycle with no message executes exactly when in continuous
/// mode.
pub fn scheduler_step(mode: ExecutionMode, msg: Option<Message>) -> (r: CyclePlan)
    ensures
        r.exit == (msg == Some(Message::Exit)),
        r.mode == (match msg {
            Some(Message::ChangeMode(m)) => m,
            _ => mode,
        }),
        r.steps == (if r.exit {
            0int
        } else {
            (if msg == Some(Message::ExecuteOne) {
                1int
            } else {
                0int
            }) + (if r.mode == ExecutionMode::Continuous {
                1int
            } else {
                0int
            })
        }),
{
    let mut plan = CyclePlan { mode, steps: 0, exit: false };
    match msg {
        Some(Message::ExecuteOne) => {
            plan.steps = 1;
        },
        Some(Message::ChangeMode(m)) => {
            plan.mode = m;
        },
        Some(Message::Exit) => {
            plan.exit = true;
        },
        None => {},
    }
    if !plan.exit && matches!(plan.mode, ExecutionMode::Continuous) {
        plan.steps = plan.steps + 1;
    }
    plan
}

} // verus!
