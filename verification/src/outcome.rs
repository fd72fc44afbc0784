//! How a run of the launcher ends, and the status the process exits with.

use vstd::prelude::*;

verus! {

/// What keeps a run from going on.
#[derive(Debug, Clone, Copy, PartialEq, Eq, Structural)]
pub enum Failure {
    /// The default search directories are needed and the home directory is
    /// unknown.
    HomeUnset,
    /// The chooser could not be started.
    ChooserSpawn,
    /// The chooser was started, but waiting for it failed.
    ChooserWait,
    /// The chooser's output is not valid UTF-8.
    ChooserOutput,
    /// The chosen application, or the terminal emulator that wraps it, could
    /// not be started.
    LaunchSpawn,
}

/// How a run ended.
#[derive(Debug, Clone, Copy, PartialEq, Eq, Structural)]
pub enum Outcome {
    /// The user chose nothing.
    Cancelled,
    /// The chosen application was started and has finished, with whatever
    /// status of its own.
    Launched,
    /// The run was given up.
    Failed(Failure),
}

/// The exit status that reports an outcome: 1 for a failure, 0 otherwise.
pub open spec fn exit_status(outcome: Outcome) -> int {
    match outcome {
        Outcome::Failed(_) => 1,
        _ => 0,
    }
}

/// The status to exit with: cancelling is no failure, and neither is a
/// launched application that fails on its own.
pub fn exit_code(outcome: Outcome) -> (code: i32)
    ensures
        code == exit_status(outcome),
{
    match outcome {
        Outcome::Failed(_) => 1,
        _ => 0,
    }
}

} // verus!
