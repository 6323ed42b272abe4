//! Branches on a symbolic condition: the path condition of each side, and
//! what the solver says of it.

use vstd::prelude::*;
use crate::engine::symbolic_execution::{feasibility, Feasibility};
use crate::solver::bitvec::BVOperator;
use crate::solver::formula::{nodes_ok, node_ok, Formula, FormulaView, NodeView, SymbolId};
use crate::solver::{lemma_value_stays, satisfies, value_of, Solver};

verus! {

/// The formula whose root is the conjunction of the root of `formula` and the
/// node `predicate`, or the predicate itself where `formula` has no root.
pub open spec fn conjoined(formula: FormulaView, predicate: nat) -> FormulaView {
    match formula.root {
        Some(root) => FormulaView {
            nodes: formula.nodes.push(NodeView::Binary(BVOperator::BitwiseAnd, root, predicate)),
            root: Some(formula.nodes.len()),
        },
        None => FormulaView { nodes: formula.nodes, root: Some(predicate) },
    }
}

/// The formula with one more node, the negation of the node `predicate`.
pub open spec fn with_negation(formula: FormulaView, predicate: nat) -> FormulaView {
    FormulaView {
        nodes: formula.nodes.push(NodeView::Unary(BVOperator::Not, predicate)),
        root: formula.root,
    }
}

/// The path condition of the side of a branch on which `condition` holds.
pub open spec fn taken_side(formula: FormulaView, condition: nat) -> FormulaView {
    conjoined(formula, condition)
}

/// The path condition of the side of a branch on which `condition` does not
/// hold.
pub open spec fn fallthrough_side(formula: FormulaView, condition: nat) -> FormulaView {
    conjoined(with_negation(formula, condition), formula.nodes.len())
}

/// Whether the node at `id` is a predicate: a comparison, or a conjunction of
/// predicates, or the literal zero or one.
pub open spec fn is_predicate(nodes: Seq<NodeView>, id: nat) -> bool
    decreases id,
{
    match nodes[id as int] {
        NodeView::Input(_) => false,
        NodeView::Constant(value) => value <= 1,
        NodeView::Unary(_, _) => true,
        NodeView::Binary(op, lhs, rhs) => op == BVOperator::Equals || op == BVOperator::Sltu || (op
            == BVOperator::BitwiseAnd && lhs < id && rhs < id && is_predicate(nodes, lhs)
            && is_predicate(nodes, rhs)),
    }
}

/// The value of a predicate is zero or one.
pub proof fn lemma_predicate_value(nodes: Seq<NodeView>, id: nat, inputs: Map<nat, u64>)
    requires
        nodes_ok(nodes),
        id < nodes.len(),
        is_predicate(nodes, id),
    ensures
        value_of(nodes, id, inputs) <= 1,
    decreases id,
{
    assert(node_ok(nodes, id as int));
    match nodes[id as int] {
        NodeView::Binary(op, lhs, rhs) => {
            if op == BVOperator::BitwiseAnd {
                lemma_predicate_value(nodes, lhs, inputs);
                lemma_predicate_value(nodes, rhs, inputs);
                let a = value_of(nodes, lhs, inputs);
                let b = value_of(nodes, rhs, inputs);
                assert(a <= 1 && b <= 1 ==> a & b <= 1) by (bit_vector);
            }
        },
        _ => {},
    }
}

/// Where the path condition and the condition of a branch are predicates,
/// the side that is taken is satisfied by the values that satisfy the path
/// condition and make the condition hold, and the other side by those that
/// satisfy the path condition and make the condition fail. So no values
/// satisfy both sides, and all that satisfy the path condition satisfy one.
pub proof fn lemma_sides(formula: FormulaView, condition: nat, inputs: Map<nat, u64>)
    requires
        formula.wf(),
        formula.root is Some,
        is_predicate(formula.nodes, formula.root->0),
        condition < formula.nodes.len(),
        is_predicate(formula.nodes, condition),
    ensures
        satisfies(taken_side(formula, condition), inputs) <==> satisfies(formula, inputs)
            && value_of(formula.nodes, condition, inputs) != 0,
        satisfies(fallthrough_side(formula, condition), inputs) <==> satisfies(formula, inputs)
            && value_of(formula.nodes, condition, inputs) == 0,
{
    let nodes = formula.nodes;
    let root = formula.root->0;
    let p = value_of(nodes, root, inputs);
    let c = value_of(nodes, condition, inputs);
    lemma_predicate_value(nodes, root, inputs);
    lemma_predicate_value(nodes, condition, inputs);
    let taken = taken_side(formula, condition).nodes;
    assert(taken.subrange(0, nodes.len() as int) =~= nodes);
    lemma_value_stays(nodes, taken, root, inputs);
    lemma_value_stays(nodes, taken, condition, inputs);
    assert(p <= 1 && c <= 1 ==> (p & c != 0 <==> p != 0 && c != 0)) by (bit_vector);

    let negated = with_negation(formula, condition).nodes;
    let other = fallthrough_side(formula, condition).nodes;
    let not = nodes.len();
    assert(negated.subrange(0, nodes.len() as int) =~= nodes);
    assert(other.subrange(0, negated.len() as int) =~= negated);
    assert(other.subrange(0, nodes.len() as int) =~= nodes);
    lemma_value_stays(nodes, other, root, inputs);
    lemma_value_stays(nodes, other, condition, inputs);
    let n = value_of(other, not, inputs);
    assert(n == if c == 0 {
        1u64
    } else {
        0u64
    });
    assert(p <= 1 && n <= 1 ==> (p & n != 0 <==> p != 0 && n != 0)) by (bit_vector);
}

/// The two sides of a branch: the path condition of each, and what the solver
/// said of it.
pub struct Sides {
    pub taken: Formula,
    pub taken_answer: Feasibility,
    pub fallthrough: Formula,
    pub fallthrough_answer: Feasibility,
}

/// Asks the solver about both sides of a branch of the path with the path
/// condition `formula` on the node `condition`, the side that is taken first.
/// A side that is said to be feasible is satisfied by some values, and one
/// that is said to be infeasible by none.
pub fn ask_sides<S: Solver>(solver: &mut S, formula: Formula, condition: SymbolId) -> (r: Sides)
    requires
        formula.wf(),
        condition < formula@.nodes.len(),
    ensures
        r.taken.wf(),
        r.fallthrough.wf(),
        r.taken@ == taken_side(formula@, condition as nat),
        r.fallthrough@ == fallthrough_side(formula@, condition as nat),
        r.taken_answer is Sat ==> exists|inputs: Map<nat, u64>| satisfies(r.taken@, inputs),
        r.taken_answer is Unsat ==> forall|inputs: Map<nat, u64>| !satisfies(r.taken@, inputs),
        r.fallthrough_answer is Sat ==> exists|inputs: Map<nat, u64>|
            satisfies(r.fallthrough@, inputs),
        r.fallthrough_answer is Unsat ==> forall|inputs: Map<nat, u64>|
            !satisfies(r.fallthrough@, inputs),
{
    let mut fallthrough = formula.fork();
    let mut taken = formula;
    taken.extend_root(condition);
    let negation = fallthrough.unary(BVOperator::Not, condition);
    fallthrough.extend_root(negation);
    let taken_answer = feasibility(&solver.solve_impl(&taken));
    let fallthrough_answer = feasibility(&solver.solve_impl(&fallthrough));
    Sides { taken, taken_answer, fallthrough, fallthrough_answer }
}

} // verus!
