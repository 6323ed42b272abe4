//! The state of one path through the program: registers, memory and program
//! counter, each register and each word of memory holding a number or the
//! node of a formula.

use vstd::prelude::*;
use crate::cli::{MAX_MEMORY_SIZE, MIN_MEMORY_SIZE};
use crate::engine::{ConfigError, GuestTrap};
use crate::solver::bitvec::{binary_value, unary_value, BVOperator, BitVector};
use crate::solver::formula::{Formula, NodeView, SymbolId};
use crate::solver::{extends, lemma_value_stays, value_of};

verus! {

/// The number of registers.
pub const REGISTERS: usize = 32;

/// The number of bytes in a word of memory.
pub const WORD_SIZE: u64 = 8;

/// The number of words in a mebibyte.
pub const WORDS_PER_MIB: u64 = 131_072;

/// What a register or a word of memory holds.
#[derive(Clone, Copy, Debug, PartialEq, Eq, Structural)]
pub enum Value {
    /// A number.
    Concrete(BitVector),
    /// What the node of a formula stands for.
    Symbolic(SymbolId),
}

/// The number that `value` stands for where the free variables of the formula
/// have the values of `inputs`.
pub open spec fn meaning(nodes: Seq<NodeView>, value: Value, inputs: Map<nat, u64>) -> u64 {
    match value {
        Value::Concrete(number) => number.0,
        Value::Symbolic(id) => value_of(nodes, id as nat, inputs),
    }
}

/// Whether `value` is a number or a node of the formula.
pub open spec fn known(nodes: Seq<NodeView>, value: Value) -> bool {
    value matches Value::Symbolic(id) ==> id < nodes.len()
}

/// The node that stands for `value`: the node itself, or the node of the
/// literal.
fn as_node(formula: &mut Formula, value: Value) -> (id: SymbolId)
    requires
        old(formula).wf(),
        known(old(formula)@.nodes, value),
    ensures
        final(formula).wf(),
        final(formula)@.root == old(formula)@.root,
        extends(old(formula)@.nodes, final(formula)@.nodes),
        id < final(formula)@.nodes.len(),
        forall|inputs: Map<nat, u64>|
            value_of(final(formula)@.nodes, id as nat, inputs) == meaning(
                old(formula)@.nodes,
                value,
                inputs,
            ),
{
    match value {
        Value::Concrete(number) => {
            let id = formula.constant(number);
            assert(formula@.nodes.subrange(0, old(formula)@.nodes.len() as int) =~= old(
                formula,
            )@.nodes);
            id
        },
        Value::Symbolic(id) => {
            assert(formula@.nodes.subrange(0, formula@.nodes.len() as int) =~= formula@.nodes);
            id
        },
    }
}

/// What an operator on two operands gives. Where both operands are numbers
/// the result is the number that the operator gives on them. Otherwise the
/// result is a new node of the formula, whose value is what the operator
/// gives on the values of the operands whatever the free variables are. A
/// division or a remainder by the number zero traps.
pub fn operate(formula: &mut Formula, op: BVOperator, lhs: Value, rhs: Value) -> (r: Result<
    Value,
    GuestTrap,
>)
    requires
        old(formula).wf(),
        !op.unary(),
        known(old(formula)@.nodes, lhs),
        known(old(formula)@.nodes, rhs),
    ensures
        final(formula).wf(),
        final(formula)@.root == old(formula)@.root,
        extends(old(formula)@.nodes, final(formula)@.nodes),
        r is Err <==> (op == BVOperator::Divu || op == BVOperator::Remu) && rhs
            == Value::Concrete(BitVector(0)),
        r is Err ==> r == Err::<Value, GuestTrap>(GuestTrap::DivisionByZero) && final(formula)@
            == old(formula)@,
        r matches Ok(value) ==> {
            &&& known(final(formula)@.nodes, value)
            &&& value is Concrete <==> lhs is Concrete && rhs is Concrete
            &&& value is Concrete ==> final(formula)@ == old(formula)@
            &&& forall|inputs: Map<nat, u64>|
                meaning(final(formula)@.nodes, value, inputs) == binary_value(
                    op,
                    meaning(old(formula)@.nodes, lhs, inputs),
                    meaning(old(formula)@.nodes, rhs, inputs),
                )
        },
{
    proof {
        formula.lemma_wf();
        assert(formula@.nodes.subrange(0, formula@.nodes.len() as int) =~= formula@.nodes);
    }
    match op {
        BVOperator::Divu | BVOperator::Remu => match rhs {
            Value::Concrete(divisor) => {
                if divisor.0 == 0 {
                    return Err(GuestTrap::DivisionByZero);
                }
            },
            _ => {},
        },
        _ => {},
    }
    match (lhs, rhs) {
        (Value::Concrete(a), Value::Concrete(b)) => Ok(Value::Concrete(BitVector::binary(op, a, b))),
        _ => {
            let ghost before = formula@.nodes;
            let left = as_node(formula, lhs);
            let ghost between = formula@.nodes;
            proof {
                formula.lemma_wf();
            }
            assert(known(between, rhs));
            let right = as_node(formula, rhs);
            let ghost operands = formula@.nodes;
            proof {
                formula.lemma_wf();
            }
            let id = formula.binary(op, left, right);
            proof {
                formula.lemma_wf();
                let after = formula@.nodes;
                assert(after.subrange(0, operands.len() as int) =~= operands);
                assert(after.subrange(0, before.len() as int) =~= before) by {
                    assert forall|i: int| 0 <= i < before.len() implies after[i] == before[i] by {
                        assert(operands[i] == after.subrange(0, operands.len() as int)[i]);
                        assert(between[i] == operands.subrange(0, between.len() as int)[i]);
                        assert(before[i] == between.subrange(0, before.len() as int)[i]);
                    }
                }
                assert forall|inputs: Map<nat, u64>|
                    meaning(after, Value::Symbolic(id), inputs) == binary_value(
                        op,
                        meaning(before, lhs, inputs),
                        meaning(before, rhs, inputs),
                    ) by {
                    lemma_value_stays(between, operands, left as nat, inputs);
                    lemma_value_stays(operands, after, left as nat, inputs);
                    lemma_value_stays(operands, after, right as nat, inputs);
                    match rhs {
                        Value::Symbolic(node) => {
                            lemma_value_stays(before, between, node as nat, inputs);
                        },
                        _ => {},
                    }
                }
            }
            Ok(Value::Symbolic(id))
        },
    }
}

/// What the operator on one operand gives: a number for a number, and for a
/// node a new node whose value is what the operator gives on the value of the
/// operand whatever the free variables are.
pub fn negate(formula: &mut Formula, operand: Value) -> (r: Value)
    requires
        old(formula).wf(),
        known(old(formula)@.nodes, operand),
    ensures
        final(formula).wf(),
        final(formula)@.root == old(formula)@.root,
        extends(old(formula)@.nodes, final(formula)@.nodes),
        known(final(formula)@.nodes, r),
        r is Concrete <==> operand is Concrete,
        r is Concrete ==> final(formula)@ == old(formula)@,
        forall|inputs: Map<nat, u64>|
            meaning(final(formula)@.nodes, r, inputs) == unary_value(
                BVOperator::Not,
                meaning(old(formula)@.nodes, operand, inputs),
            ),
{
    proof {
        formula.lemma_wf();
        assert(formula@.nodes.subrange(0, formula@.nodes.len() as int) =~= formula@.nodes);
    }
    match operand {
        Value::Concrete(number) => Value::Concrete(BitVector::unary(BVOperator::Not, number)),
        Value::Symbolic(node) => {
            let ghost before = formula@.nodes;
            let id = formula.unary(BVOperator::Not, node);
            proof {
                formula.lemma_wf();
                let after = formula@.nodes;
                assert(after.subrange(0, before.len() as int) =~= before);
                assert forall|inputs: Map<nat, u64>|
                    meaning(after, Value::Symbolic(id), inputs) == unary_value(
                        BVOperator::Not,
                        meaning(before, operand, inputs),
                    ) by {
                    lemma_value_stays(before, after, node as nat, inputs);
                }
            }
            Value::Symbolic(id)
        },
    }
}

/// The state of a path, as a plain value.
pub struct InterpreterView {
    pub registers: Seq<Value>,
    /// The words of memory; the word at place `i` has the address `8 * i`.
    pub memory: Seq<Value>,
    pub pc: u64,
}

/// What reading the word at `address` gives in a memory of `words` words: a
/// trap where the address is not that of a word, or of none that there is.
pub open spec fn access(words: nat, address: u64) -> Result<int, GuestTrap> {
    if address % WORD_SIZE != 0 {
        Err(GuestTrap::MisalignedAccess)
    } else if address / WORD_SIZE >= words {
        Err(GuestTrap::OutOfBounds)
    } else {
        Ok((address / WORD_SIZE) as int)
    }
}

/// The state of one path.
pub struct InterpreterState {
    registers: Vec<Value>,
    memory: Vec<Value>,
    pc: u64,
}

impl View for InterpreterState {
    type V = InterpreterView;

    closed spec fn view(&self) -> InterpreterView {
        InterpreterView { registers: self.registers@, memory: self.memory@, pc: self.pc }
    }
}

/// As many copies of zero as asked for.
fn zeroes(len: usize) -> (r: Vec<Value>)
    ensures
        r@ == Seq::new(len as nat, |i: int| Value::Concrete(BitVector(0))),
{
    let mut cells: Vec<Value> = Vec::new();
    while cells.len() < len
        invariant
            cells.len() <= len,
            forall|i: int| 0 <= i < cells.len() ==> cells@[i] == Value::Concrete(BitVector(0)),
        decreases len - cells.len(),
    {
        cells.push(Value::Concrete(BitVector(0)));
    }
    assert(cells@ =~= Seq::new(len as nat, |i: int| Value::Concrete(BitVector(0))));
    cells
}

/// A copy of `cells`.
fn copy_of(cells: &Vec<Value>) -> (r: Vec<Value>)
    ensures
        r@ == cells@,
{
    let mut copy: Vec<Value> = Vec::new();
    while copy.len() < cells.len()
        invariant
            copy.len() <= cells.len(),
            forall|i: int| 0 <= i < copy.len() ==> copy@[i] == cells@[i],
        decreases cells.len() - copy.len(),
    {
        copy.push(cells[copy.len()]);
    }
    assert(copy@ =~= cells@);
    copy
}

impl InterpreterState {
    /// What holds of a state at all times: it has thirty-two registers, the
    /// first of which holds zero, and between 1 and 1024 mebibytes of memory.
    pub open spec fn wf(self) -> bool {
        &&& self@.registers.len() == REGISTERS
        &&& self@.registers[0] == Value::Concrete(BitVector(0))
        &&& self@.memory.len() % WORDS_PER_MIB as nat == 0
        &&& MIN_MEMORY_SIZE <= self@.memory.len() / WORDS_PER_MIB as nat <= MAX_MEMORY_SIZE
    }

    /// A state with `memory_size` mebibytes of memory, that starts at `pc`
    /// with zero in every register and in every word of memory.
    pub fn new(memory_size: u64, pc: u64) -> (r: Result<InterpreterState, ConfigError>)
        ensures
            r is Ok <==> MIN_MEMORY_SIZE <= memory_size <= MAX_MEMORY_SIZE,
            r is Err ==> r == Err::<InterpreterState, ConfigError>(ConfigError::MemorySize),
            r matches Ok(state) ==> state.wf() && state@ == (InterpreterView {
                registers: Seq::new(REGISTERS as nat, |i: int| Value::Concrete(BitVector(0))),
                memory: Seq::new(
                    (memory_size * WORDS_PER_MIB) as nat,
                    |i: int| Value::Concrete(BitVector(0)),
                ),
                pc,
            }),
    {
        if memory_size < MIN_MEMORY_SIZE || memory_size > MAX_MEMORY_SIZE {
            return Err(ConfigError::MemorySize);
        }
        let words = (memory_size * WORDS_PER_MIB) as usize;
        let state = InterpreterState { registers: zeroes(REGISTERS), memory: zeroes(words), pc };
        assert(state@.memory.len() == (memory_size as nat) * WORDS_PER_MIB);
        Ok(state)
    }

    /// The address of the instruction that is executed next.
    pub fn pc(&self) -> (r: u64)
        ensures
            r == self@.pc,
    {
        self.pc
    }

    /// Goes on at `pc`.
    pub fn set_pc(&mut self, pc: u64)
        ensures
            final(self)@ == (InterpreterView { pc, ..old(self)@ }),
    {
        self.pc = pc;
    }

    /// The number of bytes of memory.
    pub fn memory_size(&self) -> (r: u64)
        requires
            self.wf(),
        ensures
            r == self@.memory.len() * WORD_SIZE,
    {
        (self.memory.len() as u64) * WORD_SIZE
    }

    /// What the register `index` holds.
    pub fn register(&self, index: usize) -> (r: Value)
        requires
            self.wf(),
            index < REGISTERS,
        ensures
            r == self@.registers[index as int],
    {
        self.registers[index]
    }

    /// Puts `value` into the register `index`. The first register keeps its
    /// zero.
    pub fn set_register(&mut self, index: usize, value: Value)
        requires
            old(self).wf(),
            index < REGISTERS,
        ensures
            final(self).wf(),
            final(self)@ == (InterpreterView {
                registers: if index == 0 {
                    old(self)@.registers
                } else {
                    old(self)@.registers.update(index as int, value)
                },
                ..old(self)@
            }),
    {
        if index != 0 {
            self.registers.set(index, value);
        }
    }

    /// What the word at `address` holds, or the trap that reading it is.
    pub fn load(&self, address: u64) -> (r: Result<Value, GuestTrap>)
        requires
            self.wf(),
        ensures
            match access(self@.memory.len(), address) {
                Ok(at) => r == Ok::<Value, GuestTrap>(self@.memory[at]),
                Err(trap) => r == Err::<Value, GuestTrap>(trap),
            },
    {
        if address % WORD_SIZE != 0 {
            return Err(GuestTrap::MisalignedAccess);
        }
        let at = address / WORD_SIZE;
        if at >= self.memory.len() as u64 {
            return Err(GuestTrap::OutOfBounds);
        }
        Ok(self.memory[at as usize])
    }

    /// Puts `value` into the word at `address`, or gives the trap that
    /// writing there is and changes nothing. The memory never grows.
    pub fn store(&mut self, address: u64, value: Value) -> (r: Result<(), GuestTrap>)
        requires
            old(self).wf(),
        ensures
            final(self).wf(),
            final(self)@.memory.len() == old(self)@.memory.len(),
            match access(old(self)@.memory.len(), address) {
                Ok(at) => r is Ok && final(self)@ == (InterpreterView {
                    memory: old(self)@.memory.update(at, value),
                    ..old(self)@
                }),
                Err(trap) => r == Err::<(), GuestTrap>(trap) && final(self)@ == old(self)@,
            },
    {
        if address % WORD_SIZE != 0 {
            return Err(GuestTrap::MisalignedAccess);
        }
        let at = address / WORD_SIZE;
        if at >= self.memory.len() as u64 {
            return Err(GuestTrap::OutOfBounds);
        }
        self.memory.set(at as usize, value);
        Ok(())
    }

    /// A state like this one, for the other side of a branch.
    pub fn fork(&self) -> (r: InterpreterState)
        ensures
            r@ == self@,
    {
        InterpreterState {
            registers: copy_of(&self.registers),
            memory: copy_of(&self.memory),
            pc: self.pc,
        }
    }
}

} // verus!
