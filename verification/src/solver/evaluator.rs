//! The visitor that computes the value of a formula where its free variables
//! have given values.

use vstd::prelude::*;
use vstd::std_specs::hash::*;
use crate::solver::bitvec::{binary_value, unary_value, BVOperator, BitVector};
use crate::solver::formula::{nodes_ok, node_ok, Formula, NodeView, SymbolId};
use crate::solver::reach::{
    known_before, lemma_known_before_last, lemma_operands_first_before_last,
    lemma_post_order_operands_first, operands_before, operands_first,
};
use crate::solver::visitor::{
    filled, lemma_post_order, lemma_visit_all_record, post_order, visit, visit_all, FormulaVisitor,
};
use crate::solver::{assigned, satisfies, value_of, Assignment};

verus! {

broadcast use vstd::std_specs::hash::group_hash_axioms;

/// The visitor that gives each node its value.
pub struct Evaluator<'a> {
    assignment: &'a Assignment,
}

impl<'a> View for Evaluator<'a> {
    type V = Map<nat, u64>;

    closed spec fn view(&self) -> Map<nat, u64> {
        assigned(self.assignment@)
    }
}

impl<'a> Evaluator<'a> {
    /// An evaluator for the values of `assignment`.
    pub fn new(assignment: &'a Assignment) -> (r: Evaluator<'a>)
        ensures
            r@ == assigned(assignment@),
    {
        Evaluator { assignment }
    }
}

impl<'a> FormulaVisitor<BitVector> for Evaluator<'a> {
    open spec fn input_spec(state: Map<nat, u64>, idx: nat, name: Seq<char>) -> (
        Map<nat, u64>,
        BitVector,
    ) {
        (
            state,
            BitVector(
                if state.contains_key(idx) {
                    state[idx]
                } else {
                    0
                },
            ),
        )
    }

    open spec fn constant_spec(state: Map<nat, u64>, idx: nat, value: u64) -> (
        Map<nat, u64>,
        BitVector,
    ) {
        (state, BitVector(value))
    }

    open spec fn unary_spec(state: Map<nat, u64>, idx: nat, op: BVOperator, operand: BitVector)
        -> (Map<nat, u64>, BitVector) {
        (state, BitVector(unary_value(op, operand.0)))
    }

    open spec fn binary_spec(
        state: Map<nat, u64>,
        idx: nat,
        op: BVOperator,
        lhs: BitVector,
        rhs: BitVector,
    ) -> (Map<nat, u64>, BitVector) {
        (state, BitVector(binary_value(op, lhs.0, rhs.0)))
    }

    fn duplicate(result: &BitVector) -> (copy: BitVector) {
        *result
    }

    fn input(&mut self, idx: SymbolId, name: &str) -> (r: BitVector) {
        match self.assignment.get(&idx) {
            Some(value) => *value,
            None => BitVector(0),
        }
    }

    fn constant(&mut self, idx: SymbolId, v: BitVector) -> (r: BitVector) {
        v
    }

    fn unary(&mut self, idx: SymbolId, op: BVOperator, v: BitVector) -> (r: BitVector) {
        BitVector::unary(op, v)
    }

    fn binary(&mut self, idx: SymbolId, op: BVOperator, lhs: BitVector, rhs: BitVector) -> (r:
        BitVector) {
        BitVector::binary(op, lhs, rhs)
    }
}

/// Whether every result on record is the value of its node.
pub open spec fn valued(
    nodes: Seq<NodeView>,
    memo: Seq<Option<BitVector>>,
    inputs: Map<nat, u64>,
) -> bool {
    forall|id: int|
        0 <= id < memo.len() ==> (#[trigger] memo[id] is Some ==> memo[id] == Some(
            BitVector(value_of(nodes, id as nat, inputs)),
        ))
}

/// Where the evaluator visits nodes that come after their operands, and the
/// record it starts with holds values, the record holds values afterwards.
pub proof fn lemma_evaluated(
    nodes: Seq<NodeView>,
    order: Seq<nat>,
    memo: Seq<Option<BitVector>>,
    inputs: Map<nat, u64>,
)
    requires
        nodes_ok(nodes),
        nodes.len() == memo.len(),
        forall|k: int| 0 <= k < order.len() ==> #[trigger] order[k] < memo.len(),
        valued(nodes, memo, inputs),
        operands_first(nodes, order, filled(memo)),
    ensures
        visit_all::<Evaluator, BitVector>(nodes, order, memo, inputs).0 == inputs,
        valued(nodes, visit_all::<Evaluator, BitVector>(nodes, order, memo, inputs).1, inputs),
    decreases order.len(),
{
    if order.len() > 0 {
        let rest = order.drop_last();
        let last = order.last();
        let at = order.len() - 1;
        let seen = filled(memo);
        lemma_operands_first_before_last(nodes, order, seen);
        lemma_evaluated(nodes, rest, memo, inputs);
        lemma_visit_all_record::<Evaluator, BitVector>(nodes, rest, memo, inputs);
        let (before, record) = visit_all::<Evaluator, BitVector>(nodes, rest, memo, inputs);
        assert(operands_before(nodes, order, at, seen));
        assert forall|id: nat| known_before(order, at, seen, id) implies id < record.len()
            && record[id as int] == Some(BitVector(value_of(nodes, id, inputs))) by {
            lemma_known_before_last(order, seen, id);
            assert(filled(record).contains(id));
        }
        assert(node_ok(nodes, last as int));
        let (after, result) = visit::<Evaluator, BitVector>(nodes, last, record, before);
        assert(result == BitVector(value_of(nodes, last, inputs)));
    }
}

/// The value of the root of `formula` where the free variables have the
/// values of `assignment`, those without a value counting as zero.
pub fn evaluate(formula: &Formula, assignment: &Assignment) -> (r: Option<BitVector>)
    requires
        formula.wf(),
    ensures
        match formula@.root {
            Some(root) => r == Some(
                BitVector(value_of(formula@.nodes, root, assigned(assignment@))),
            ),
            None => r is None,
        },
{
    proof {
        formula.lemma_wf();
    }
    match formula.root() {
        Some(root) => {
            let mut evaluator = Evaluator::new(assignment);
            let mut record: Vec<Option<BitVector>> = formula.new_visit_map();
            proof {
                let order = post_order(formula@.nodes, root as nat, Set::empty());
                lemma_post_order(formula@.nodes, root as nat, Set::empty());
                lemma_post_order_operands_first(formula@.nodes, root as nat, Set::empty());
                lemma_evaluated(formula@.nodes, order, record@, evaluator@);
            }
            Some(formula.traverse(root, &mut record, &mut evaluator))
        },
        None => None,
    }
}

/// Whether the values of `assignment` satisfy `formula`.
pub fn is_satisfied_by(formula: &Formula, assignment: &Assignment) -> (r: bool)
    requires
        formula.wf(),
    ensures
        r == satisfies(formula@, assigned(assignment@)),
{
    match evaluate(formula, assignment) {
        Some(value) => value.0 != 0,
        None => false,
    }
}

} // verus!
