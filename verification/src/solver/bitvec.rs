//! Bit-vectors of sixty-four bits and the operators on them.

use vstd::prelude::*;

verus! {

/// A bit-vector of sixty-four bits, read as an unsigned number, and ordered as
/// the numbers are.
#[derive(Clone, Copy, Debug, PartialEq, Eq, Structural, Hash, PartialOrd, Ord)]
pub struct BitVector(pub u64);

/// The operators of the formulas. `Not` takes one operand, the others two.
/// `Equals` and `Sltu`, which is less-than on unsigned numbers, are
/// comparisons, and so is `Not`, which compares with zero.
#[derive(Clone, Copy, Debug, PartialEq, Eq, Structural, Hash)]
pub enum BVOperator {
    Add,
    Sub,
    Mul,
    Divu,
    Sltu,
    Remu,
    Not,
    Equals,
    BitwiseAnd,
}

/// The number of values that sixty-four bits hold.
pub open spec fn modulus() -> nat {
    0x1_0000_0000_0000_0000
}

/// One for a truth, zero for a falsehood.
pub open spec fn truth(b: bool) -> u64 {
    if b {
        1
    } else {
        0
    }
}

/// What a binary operator gives on two operands. Sums, differences and
/// products are taken modulo two to the sixty-fourth. A division by zero gives
/// all ones and a remainder by zero gives the dividend, so that no operand
/// traps. A comparison gives one or zero.
pub open spec fn binary_value(op: BVOperator, lhs: u64, rhs: u64) -> u64 {
    match op {
        BVOperator::Add => ((lhs + rhs) % modulus() as int) as u64,
        BVOperator::Sub => ((lhs - rhs) % modulus() as int) as u64,
        BVOperator::Mul => ((lhs * rhs) % modulus() as int) as u64,
        BVOperator::Divu => if rhs == 0 {
            u64::MAX
        } else {
            lhs / rhs
        },
        BVOperator::Remu => if rhs == 0 {
            lhs
        } else {
            lhs % rhs
        },
        BVOperator::Equals => truth(lhs == rhs),
        BVOperator::Sltu => truth(lhs < rhs),
        BVOperator::BitwiseAnd => lhs & rhs,
        BVOperator::Not => truth(lhs == 0),
    }
}

/// What a unary operator gives on its operand: one where the operand is zero,
/// zero where it is not.
pub open spec fn unary_value(op: BVOperator, operand: u64) -> u64 {
    truth(operand == 0)
}

impl BVOperator {
    /// Whether the operator takes one operand.
    pub open spec fn unary(self) -> bool {
        self == BVOperator::Not
    }

    pub fn is_unary(&self) -> (r: bool)
        ensures
            r == self.unary(),
    {
        match self {
            BVOperator::Not => true,
            _ => false,
        }
    }

    pub fn is_binary(&self) -> (r: bool)
        ensures
            r == !self.unary(),
    {
        !self.is_unary()
    }
}

impl BitVector {
    /// The bit-vector of sixty-four ones.
    pub fn ones() -> (r: BitVector)
        ensures
            r.0 == u64::MAX,
    {
        BitVector(u64::MAX)
    }

    /// Applies a binary operator.
    pub fn binary(op: BVOperator, lhs: BitVector, rhs: BitVector) -> (r: BitVector)
        ensures
            r.0 == binary_value(op, lhs.0, rhs.0),
    {
        match op {
            BVOperator::Add => {
                let sum = lhs.0.wrapping_add(rhs.0);
                assert(sum == ((lhs.0 + rhs.0) % modulus() as int) as u64);
                BitVector(sum)
            },
            BVOperator::Sub => {
                let difference = lhs.0.wrapping_sub(rhs.0);
                assert(difference == ((lhs.0 - rhs.0) % modulus() as int) as u64);
                BitVector(difference)
            },
            BVOperator::Mul => BitVector(lhs.0.wrapping_mul(rhs.0)),
            BVOperator::Divu => {
                if rhs.0 == 0 {
                    BitVector::ones()
                } else {
                    BitVector(lhs.0 / rhs.0)
                }
            },
            BVOperator::Remu => {
                if rhs.0 == 0 {
                    lhs
                } else {
                    BitVector(lhs.0 % rhs.0)
                }
            },
            BVOperator::Equals => BitVector(if lhs.0 == rhs.0 {
                1
            } else {
                0
            }),
            BVOperator::Sltu => BitVector(if lhs.0 < rhs.0 {
                1
            } else {
                0
            }),
            BVOperator::BitwiseAnd => BitVector(lhs.0 & rhs.0),
            BVOperator::Not => BitVector::unary(op, lhs),
        }
    }

    /// Applies a unary operator.
    pub fn unary(op: BVOperator, operand: BitVector) -> (r: BitVector)
        ensures
            r.0 == unary_value(op, operand.0),
    {
        BitVector(if operand.0 == 0 {
            1
        } else {
            0
        })
    }
}

} // verus!
