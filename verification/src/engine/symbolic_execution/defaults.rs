//! What symbolic execution runs with where nothing else is asked for.

use vstd::prelude::*;
use crate::cli::{MAX_MEMORY_SIZE, MIN_MEMORY_SIZE};

verus! {

/// The number of bytes in a mebibyte.
pub const MIB: u64 = 1_048_576;

/// The number of instructions after which a path is given up.
pub const MAX_EXECUTION_DEPTH: u64 = 1_048_576;

/// The bytes of memory of each path.
pub const MEMORY_SIZE: u64 = 16 * MIB;

/// The number of instructions that all paths together may execute.
pub const STEP_BUDGET: u64 = 1_099_511_627_776;

/// The memory that a path has by default is an amount that the command line
/// accepts.
pub proof fn lemma_memory_size_valid()
    ensures
        MEMORY_SIZE % MIB == 0,
        MIN_MEMORY_SIZE <= MEMORY_SIZE / MIB <= MAX_MEMORY_SIZE,
{
}

} // verus!
