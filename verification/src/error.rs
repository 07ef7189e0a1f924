//! The classified failures one invocation of the external engine can end in.

use vstd::prelude::*;

verus! {

/// Everything captured from a finished engine process: whether the exit
/// status reported success, the exit code (`-1` when the process ended
/// without one), and both output streams in full.
#[derive(Clone, Debug)]
pub struct CommandOutcome {
    pub success: bool,
    pub exit_code: i32,
    pub stdout: Vec<u8>,
    pub stderr: Vec<u8>,
}

/// One error type unifying the four ways an invocation fails.
#[derive(Debug)]
pub enum ProverError {
    /// Directory creation, file write, or file read failed; the message
    /// carries the underlying error's description.
    IoError(String),
    /// The engine binary could not be started at all.
    SpawnError(String),
    /// The engine ran and exited unsuccessfully; the whole outcome is kept
    /// so a caller can diagnose it without re-running.
    CommandError(CommandOutcome),
    /// The engine's output file was missing or did not hold a proof document.
    DecodeError,
}

} // verus!
