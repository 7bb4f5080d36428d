//! Failures at startup, and the status the process ends with.

use vstd::prelude::*;

verus! {

/// A failure before the event loop runs; each is fatal.
#[derive(Clone, Copy, Debug, PartialEq, Eq, Structural)]
pub enum SetupError {
    /// A hook for a termination signal could not be registered.
    SignalHook { signal: i32 },
    /// Interest in the termination signals could not be registered.
    SignalListener,
    /// The thread that waits for a termination signal could not be started.
    SignalThread,
    /// The debounced filesystem watcher could not be created.
    Watcher,
    /// The directory could not be watched.
    Watch,
}

/// The status for how the daemon ended: zero after a clean shutdown, and
/// nonzero after a failure at startup.
pub open spec fn status_of(outcome: Result<(), SetupError>) -> i32 {
    match outcome {
        Ok(()) => 0,
        Err(_) => 1,
    }
}

/// The process status for how the daemon ended.
pub fn exit_status(outcome: &Result<(), SetupError>) -> (code: i32)
    ensures
        code == status_of(*outcome),
        (code == 0) == (*outcome is Ok),
{
    match outcome {
        Ok(()) => 0,
        Err(_) => 1,
    }
}

} // verus!
