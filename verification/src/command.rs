//! What an external program (`date`, `task`) gave back, as plain values.
//! The library decides which program to run with which arguments and what
//! its answer means; starting the program is left to the caller.
use vstd::prelude::*;

verus! {

/// The result of a program that was started and ran to its end.
#[derive(Clone, Debug)]
pub struct RunOutput {
    /// Whether it exited with success.
    pub success: bool,
    /// What it wrote to standard output (decoded as UTF-8, lossily).
    pub stdout: String,
    /// What it wrote to standard error (decoded as UTF-8, lossily).
    pub stderr: String,
}

/// A program to start: its name and its arguments.
#[derive(Clone, Debug)]
pub struct CommandLine {
    pub program: String,
    pub args: Vec<String>,
}

/// The views of a sequence of strings.
pub open spec fn string_views(v: Seq<String>) -> Seq<Seq<char>> {
    Seq::new(v.len(), |i: int| v[i]@)
}

} // verus!
