//! What a program that was run leaves behind.
use vstd::prelude::*;

verus! {

/// The outcome of a program: whether it succeeded, and what it printed.
#[derive(Debug)]
pub struct CommandOutput {
    pub success: bool,
    pub stdout: Vec<u8>,
    pub stderr: Vec<u8>,
}

} // verus!
