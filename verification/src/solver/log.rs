//! The visitor that notes which nodes it is handed, in the order in which
//! they come.

use vstd::prelude::*;
use crate::solver::bitvec::{BVOperator, BitVector};
use crate::solver::formula::{Formula, NodeView, SymbolId};
use crate::solver::visitor::{post_order, visit_all, FormulaVisitor};

verus! {

/// The visitor that notes the identifier of each node it is handed.
pub struct VisitLog {
    visited: Vec<SymbolId>,
}

impl View for VisitLog {
    type V = Seq<nat>;

    closed spec fn view(&self) -> Seq<nat> {
        self.visited@.map_values(|id: SymbolId| id as nat)
    }
}

impl VisitLog {
    /// A log without entries.
    pub fn new() -> (r: VisitLog)
        ensures
            r@ == Seq::<nat>::empty(),
    {
        let log = VisitLog { visited: Vec::new() };
        assert(log@ =~= Seq::<nat>::empty());
        log
    }

    /// The nodes visited so far, the first visit first.
    pub fn visited(&self) -> (r: &Vec<SymbolId>)
        ensures
            r@.map_values(|id: SymbolId| id as nat) == self@,
    {
        &self.visited
    }

    /// Notes one visit.
    fn note(&mut self, idx: SymbolId)
        ensures
            final(self)@ == old(self)@.push(idx as nat),
    {
        self.visited.push(idx);
        assert(self@ =~= old(self)@.push(idx as nat));
    }
}

impl FormulaVisitor<SymbolId> for VisitLog {
    open spec fn input_spec(state: Seq<nat>, idx: nat, name: Seq<char>) -> (Seq<nat>, SymbolId) {
        (state.push(idx), idx as usize)
    }

    open spec fn constant_spec(state: Seq<nat>, idx: nat, value: u64) -> (Seq<nat>, SymbolId) {
        (state.push(idx), idx as usize)
    }

    open spec fn unary_spec(state: Seq<nat>, idx: nat, op: BVOperator, operand: SymbolId) -> (
        Seq<nat>,
        SymbolId,
    ) {
        (state.push(idx), idx as usize)
    }

    open spec fn binary_spec(
        state: Seq<nat>,
        idx: nat,
        op: BVOperator,
        lhs: SymbolId,
        rhs: SymbolId,
    ) -> (Seq<nat>, SymbolId) {
        (state.push(idx), idx as usize)
    }

    fn duplicate(result: &SymbolId) -> (copy: SymbolId) {
        *result
    }

    fn input(&mut self, idx: SymbolId, name: &str) -> (r: SymbolId) {
        self.note(idx);
        idx
    }

    fn constant(&mut self, idx: SymbolId, v: BitVector) -> (r: SymbolId) {
        self.note(idx);
        idx
    }

    fn unary(&mut self, idx: SymbolId, op: BVOperator, v: SymbolId) -> (r: SymbolId) {
        self.note(idx);
        idx
    }

    fn binary(&mut self, idx: SymbolId, op: BVOperator, lhs: SymbolId, rhs: SymbolId) -> (r:
        SymbolId) {
        self.note(idx);
        idx
    }
}

/// The log of a run of visits is the log before them and then the nodes of
/// the run.
pub proof fn lemma_logged(
    nodes: Seq<NodeView>,
    order: Seq<nat>,
    memo: Seq<Option<SymbolId>>,
    state: Seq<nat>,
)
    ensures
        visit_all::<VisitLog, SymbolId>(nodes, order, memo, state).0 == state + order,
    decreases order.len(),
{
    if order.len() == 0 {
        assert(state + order =~= state);
    } else {
        lemma_logged(nodes, order.drop_last(), memo, state);
        assert(state + order =~= (state + order.drop_last()).push(order.last()));
    }
}

/// The nodes that a walk from `n` visits where nothing was visited before, in
/// the order of the visits.
pub fn walk_order(formula: &Formula, n: SymbolId) -> (r: Vec<SymbolId>)
    requires
        formula.wf(),
        n < formula@.nodes.len(),
    ensures
        r@.map_values(|id: SymbolId| id as nat) == post_order(
            formula@.nodes,
            n as nat,
            Set::empty(),
        ),
{
    let mut log = VisitLog::new();
    let mut record: Vec<Option<SymbolId>> = formula.new_visit_map();
    proof {
        lemma_logged(
            formula@.nodes,
            post_order(formula@.nodes, n as nat, Set::empty()),
            record@,
            log@,
        );
    }
    let _ = formula.traverse(n, &mut record, &mut log);
    assert(log@ =~= post_order(formula@.nodes, n as nat, Set::empty()));
    log.visited
}

} // verus!
