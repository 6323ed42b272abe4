//! The engines that run a program: what configures them, and what they keep
//! of each run.

use vstd::prelude::*;

pub mod interpreter;
pub mod rarity_simulation;
pub mod symbolic_execution;

verus! {

/// What is wrong with what an engine is run with.
#[derive(Clone, Copy, Debug, PartialEq, Eq, Structural)]
pub enum ConfigError {
    /// No path can execute an instruction.
    ExecutionDepth,
    /// The memory of a path is not between 1 and 1024 mebibytes.
    MemorySize,
    /// The paths to start with and the budget of instructions are together
    /// more than can be counted.
    StepBudget,
    /// The share of copies among the new runs is no number between zero and
    /// one.
    CopyInitRatio,
}

/// Why the program in a path cannot go on.
#[derive(Clone, Copy, Debug, PartialEq, Eq, Structural)]
pub enum GuestTrap {
    DivisionByZero,
    MisalignedAccess,
    OutOfBounds,
    ReachedError,
}

} // verus!
