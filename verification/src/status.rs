//! How a command ends.
use vstd::prelude::*;

verus! {

/// The exit status of a command.
#[derive(Debug, Clone, Copy, PartialEq, Eq, Structural)]
pub enum ExitStatus {
    /// The command did what it was asked to do.
    Success,
    /// The command found something to complain about.
    Failure,
    /// The command could not do its work.
    Error,
}

} // verus!
