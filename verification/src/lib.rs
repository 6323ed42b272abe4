//! Monster finds bugs in small RISC-U programs. This library holds what its
//! engines rest on: bit-vector formulas and the solvers asked about them, the
//! state of a path through a program, the rules by which symbolic execution
//! and rarity simulation keep and drop paths, and the validation of what the
//! engines are configured with.

pub mod cli;
pub mod engine;
pub mod numeral;
pub mod path_exploration;
pub mod solver;
pub mod text;
