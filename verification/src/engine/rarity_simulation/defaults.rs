//! What rarity simulation runs with where nothing else is asked for.

use vstd::prelude::*;
use crate::cli::{is_unit_ratio, MAX_MEMORY_SIZE, MIN_MEMORY_SIZE};
use crate::engine::rarity_simulation::MeanType;

verus! {

/// The number of bytes in a mebibyte.
pub const MIB: u64 = 1_048_576;

/// The bytes of memory of each run.
pub const MEMORY_SIZE: u64 = 16 * MIB;

/// The number of instructions that each run executes in a round.
pub const STEP_SIZE: u64 = 1000;

/// The number of runs in a round.
pub const AMOUNT_OF_STATES: usize = 3000;

/// The number of runs that are kept after a round.
pub const SELECTION: usize = 50;

/// The number of rounds.
pub const ITERATIONS: u64 = 20;

/// The bits of the binary64 number 0.6: the share of the new runs of a round
/// that are copies of runs that were kept, the others starting afresh.
pub const COPY_INIT_RATIO: u64 = 0x3FE3_3333_3333_3333;

/// The mean of the counts.
pub fn mean_type() -> (r: MeanType)
    ensures
        r == MeanType::Harmonic,
{
    MeanType::Harmonic
}

/// What a run has by default is what the command line accepts: an amount of
/// memory within the limits, and a ratio.
pub proof fn lemma_defaults_valid()
    ensures
        MEMORY_SIZE % MIB == 0,
        MIN_MEMORY_SIZE <= MEMORY_SIZE / MIB <= MAX_MEMORY_SIZE,
        is_unit_ratio(COPY_INIT_RATIO),
        SELECTION <= AMOUNT_OF_STATES,
{
    assert(0x3FE3_3333_3333_3333u64 >> 63 == 0) by (bit_vector);
    assert((0x3FE3_3333_3333_3333u64 >> 52) & 0x7ff == 1022) by (bit_vector);
}

} // verus!
