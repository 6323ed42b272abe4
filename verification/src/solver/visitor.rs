//! Visiting a formula: every node that a root stands on is handed to a visitor
//! once, after the nodes that it stands on itself.

use vstd::prelude::*;
use crate::solver::bitvec::{BVOperator, BitVector};
use crate::solver::formula::{nodes_ok, node_ok, Formula, Node, NodeView, SymbolId};

verus! {

/// What is done at each node of a formula. A visitor gathers what it sees in
/// itself and gives a result for each node; at an operator it is handed the
/// results of the operands. What a call does is a function of what the visitor
/// has gathered so far and of the arguments.
pub trait FormulaVisitor<R>: View + Sized {
    /// What visiting a free variable gathers and gives.
    spec fn input_spec(state: Self::V, idx: nat, name: Seq<char>) -> (Self::V, R);

    /// What visiting a literal gathers and gives.
    spec fn constant_spec(state: Self::V, idx: nat, value: u64) -> (Self::V, R);

    /// What visiting an operator on one operand gathers and gives.
    spec fn unary_spec(state: Self::V, idx: nat, op: BVOperator, operand: R) -> (Self::V, R);

    /// What visiting an operator on two operands gathers and gives.
    spec fn binary_spec(state: Self::V, idx: nat, op: BVOperator, lhs: R, rhs: R) -> (Self::V, R);

    /// A second copy of a result, for the record of the walk.
    fn duplicate(result: &R) -> (copy: R)
        ensures
            copy == *result,
    ;

    fn input(&mut self, idx: SymbolId, name: &str) -> (r: R)
        ensures
            (final(self)@, r) == Self::input_spec(old(self)@, idx as nat, name@),
    ;

    fn constant(&mut self, idx: SymbolId, v: BitVector) -> (r: R)
        ensures
            (final(self)@, r) == Self::constant_spec(old(self)@, idx as nat, v.0),
    ;

    fn unary(&mut self, idx: SymbolId, op: BVOperator, v: R) -> (r: R)
        ensures
            (final(self)@, r) == Self::unary_spec(old(self)@, idx as nat, op, v),
    ;

    fn binary(&mut self, idx: SymbolId, op: BVOperator, lhs: R, rhs: R) -> (r: R)
        ensures
            (final(self)@, r) == Self::binary_spec(old(self)@, idx as nat, op, lhs, rhs),
    ;
}

/// The nodes that have a result on record.
pub open spec fn filled<R>(memo: Seq<Option<R>>) -> Set<nat> {
    Set::new(|id: nat| id < memo.len() && memo[id as int] is Some)
}

/// The nodes that a walk from `n` visits, in the order of the visits, where
/// the nodes of `seen` are not visited again: the operands of a node come
/// before the node, the left before the right.
pub open spec fn post_order(nodes: Seq<NodeView>, n: nat, seen: Set<nat>) -> Seq<nat>
    decreases n,
{
    if seen.contains(n) {
        Seq::empty()
    } else {
        match nodes[n as int] {
            NodeView::Unary(_, child) => if child < n {
                post_order(nodes, child, seen).push(n)
            } else {
                seq![n]
            },
            NodeView::Binary(_, lhs, rhs) => if lhs < n && rhs < n {
                let first = post_order(nodes, lhs, seen);
                let second = post_order(nodes, rhs, seen.union(first.to_set()));
                (first + second).push(n)
            } else {
                seq![n]
            },
            _ => seq![n],
        }
    }
}

/// What the visit of one node gathers and gives, the results of its operands
/// taken from the record.
pub open spec fn visit<V: FormulaVisitor<R>, R>(
    nodes: Seq<NodeView>,
    id: nat,
    memo: Seq<Option<R>>,
    state: V::V,
) -> (V::V, R) {
    match nodes[id as int] {
        NodeView::Input(name) => V::input_spec(state, id, name),
        NodeView::Constant(value) => V::constant_spec(state, id, value),
        NodeView::Unary(op, child) => V::unary_spec(state, id, op, memo[child as int]->0),
        NodeView::Binary(op, lhs, rhs) => V::binary_spec(
            state,
            id,
            op,
            memo[lhs as int]->0,
            memo[rhs as int]->0,
        ),
    }
}

/// What visiting the nodes of `order` one after the other gathers, and the
/// record with the result of each of them.
pub open spec fn visit_all<V: FormulaVisitor<R>, R>(
    nodes: Seq<NodeView>,
    order: Seq<nat>,
    memo: Seq<Option<R>>,
    state: V::V,
) -> (V::V, Seq<Option<R>>)
    decreases order.len(),
{
    if order.len() == 0 {
        (state, memo)
    } else {
        let (before, record) = visit_all::<V, R>(nodes, order.drop_last(), memo, state);
        let (after, result) = visit::<V, R>(nodes, order.last(), record, before);
        (after, record.update(order.last() as int, Some(result)))
    }
}

/// A walk visits no node twice and none that was seen before; it visits
/// nothing beyond its start, and ends with the start unless that was seen.
pub proof fn lemma_post_order(nodes: Seq<NodeView>, n: nat, seen: Set<nat>)
    requires
        nodes_ok(nodes),
        n < nodes.len(),
    ensures
        post_order(nodes, n, seen).no_duplicates(),
        forall|k: int|
            0 <= k < post_order(nodes, n, seen).len() ==> #[trigger] post_order(nodes, n, seen)[k]
                <= n && !seen.contains(post_order(nodes, n, seen)[k]),
        seen.contains(n) ==> post_order(nodes, n, seen).len() == 0,
        !seen.contains(n) ==> post_order(nodes, n, seen).len() > 0 && post_order(
            nodes,
            n,
            seen,
        ).last() == n,
    decreases n,
{
    let order = post_order(nodes, n, seen);
    if seen.contains(n) {
    } else {
        assert(node_ok(nodes, n as int));
        match nodes[n as int] {
            NodeView::Unary(_, child) => {
                lemma_post_order(nodes, child, seen);
                let first = post_order(nodes, child, seen);
                assert(order == first.push(n));
                assert forall|i: int, j: int|
                    0 <= i < order.len() && 0 <= j < order.len() && i != j implies order[i]
                    != order[j] by {
                    if i < first.len() {
                        assert(order[i] == first[i]);
                    }
                    if j < first.len() {
                        assert(order[j] == first[j]);
                    }
                }
            },
            NodeView::Binary(_, lhs, rhs) => {
                lemma_post_order(nodes, lhs, seen);
                let first = post_order(nodes, lhs, seen);
                let between = seen.union(first.to_set());
                lemma_post_order(nodes, rhs, between);
                let second = post_order(nodes, rhs, between);
                let both = first + second;
                assert(order == both.push(n));
                assert forall|k: int| 0 <= k < both.len() implies both[k] < n && !seen.contains(
                    both[k],
                ) by {
                    if k < first.len() {
                        assert(both[k] == first[k]);
                    } else {
                        assert(both[k] == second[k - first.len()]);
                    }
                }
                assert forall|i: int, j: int|
                    0 <= i < both.len() && 0 <= j < both.len() && i != j implies both[i]
                    != both[j] by {
                    if i < first.len() && j >= first.len() {
                        assert(both[j] == second[j - first.len()]);
                        assert(first.to_set().contains(first[i]));
                    } else if j < first.len() && i >= first.len() {
                        assert(both[i] == second[i - first.len()]);
                        assert(first.to_set().contains(first[j]));
                    } else if i < first.len() {
                        assert(both[i] == first[i] && both[j] == first[j]);
                    } else {
                        assert(both[i] == second[i - first.len()]);
                        assert(both[j] == second[j - first.len()]);
                    }
                }
                assert forall|i: int, j: int|
                    0 <= i < order.len() && 0 <= j < order.len() && i != j implies order[i]
                    != order[j] by {
                    if i < both.len() {
                        assert(order[i] == both[i]);
                    }
                    if j < both.len() {
                        assert(order[j] == both[j]);
                    }
                }
                assert forall|k: int| 0 <= k < order.len() implies #[trigger] order[k] <= n
                    && !seen.contains(order[k]) by {
                    if k < both.len() {
                        assert(order[k] == both[k]);
                    }
                }
            },
            _ => {},
        }
    }
}

/// Visiting one run of nodes and then another is visiting the two runs
/// joined.
pub proof fn lemma_visit_all_joined<V: FormulaVisitor<R>, R>(
    nodes: Seq<NodeView>,
    first: Seq<nat>,
    second: Seq<nat>,
    memo: Seq<Option<R>>,
    state: V::V,
)
    ensures
        visit_all::<V, R>(nodes, first + second, memo, state) == ({
            let (between, record) = visit_all::<V, R>(nodes, first, memo, state);
            visit_all::<V, R>(nodes, second, record, between)
        }),
    decreases second.len(),
{
    if second.len() == 0 {
        assert(first + second =~= first);
    } else {
        lemma_visit_all_joined::<V, R>(nodes, first, second.drop_last(), memo, state);
        assert((first + second).drop_last() =~= first + second.drop_last());
        assert((first + second).last() == second.last());
    }
}

/// The visits leave the record as long as it was, fill the places of the
/// nodes visited, and leave the other places as they were.
pub proof fn lemma_visit_all_record<V: FormulaVisitor<R>, R>(
    nodes: Seq<NodeView>,
    order: Seq<nat>,
    memo: Seq<Option<R>>,
    state: V::V,
)
    requires
        forall|k: int| 0 <= k < order.len() ==> #[trigger] order[k] < memo.len(),
    ensures
        visit_all::<V, R>(nodes, order, memo, state).1.len() == memo.len(),
        filled(visit_all::<V, R>(nodes, order, memo, state).1) == filled(memo).union(
            order.to_set(),
        ),
        forall|id: int|
            0 <= id < memo.len() && !order.contains(id as nat) ==> #[trigger] visit_all::<V, R>(
                nodes,
                order,
                memo,
                state,
            ).1[id] == memo[id],
    decreases order.len(),
{
    let after = visit_all::<V, R>(nodes, order, memo, state).1;
    if order.len() == 0 {
        assert(filled(after) =~= filled(memo).union(order.to_set()));
    } else {
        let rest = order.drop_last();
        let last = order.last();
        lemma_visit_all_record::<V, R>(nodes, rest, memo, state);
        let record = visit_all::<V, R>(nodes, rest, memo, state).1;
        assert(after.len() == memo.len());
        assert forall|id: nat| filled(after).contains(id) <==> filled(memo).union(
            order.to_set(),
        ).contains(id) by {
            if id == last {
                assert(order[order.len() - 1] == last);
                assert(order.contains(last));
            } else if id < memo.len() {
                assert(after[id as int] == record[id as int]);
                assert(filled(record).contains(id) <==> filled(memo).union(
                    rest.to_set(),
                ).contains(id));
                if rest.contains(id) {
                    let k = choose|k: int| 0 <= k < rest.len() && rest[k] == id;
                    assert(order[k] == id);
                }
                if order.contains(id) {
                    let k = choose|k: int| 0 <= k < order.len() && order[k] == id;
                    assert(rest[k] == id);
                }
            } else {
                if order.contains(id) {
                    let k = choose|k: int| 0 <= k < order.len() && order[k] == id;
                }
            }
        }
        assert(filled(after) =~= filled(memo).union(order.to_set()));
        assert forall|id: int| 0 <= id < memo.len() && !order.contains(id as nat) implies after[id]
            == memo[id] by {
            assert(order[order.len() - 1] == last);
            if rest.contains(id as nat) {
                let k = choose|k: int| 0 <= k < rest.len() && rest[k] == id as nat;
                assert(order[k] == id as nat);
            }
            assert(record[id] == memo[id]);
        }
    }
}

impl Formula {
    /// A record for a walk through this formula, with no result in it.
    pub fn new_visit_map<R>(&self) -> (r: Vec<Option<R>>)
        requires
            self.wf(),
        ensures
            r.len() == self@.nodes.len(),
            forall|id: int| 0 <= id < r.len() ==> r@[id] is None,
            filled(r@) == Set::<nat>::empty(),
    {
        let len = self.len();
        let mut record: Vec<Option<R>> = Vec::new();
        while record.len() < len
            invariant
                record.len() <= len,
                forall|id: int| 0 <= id < record.len() ==> record@[id] is None,
            decreases len - record.len(),
        {
            record.push(None);
        }
        assert(filled(record@) =~= Set::<nat>::empty());
        record
    }

    /// Walks from `n`: visits the nodes that `n` stands on and that have no
    /// result on record yet, each once and after its operands, puts the result
    /// of each on record, and gives the result of `n`.
    pub fn traverse<V, R>(&self, n: SymbolId, visit_map: &mut Vec<Option<R>>, v: &mut V) -> (r: R)
        where V: FormulaVisitor<R>
        requires
            self.wf(),
            n < self@.nodes.len(),
            old(visit_map).len() == self@.nodes.len(),
        ensures
            final(visit_map).len() == old(visit_map).len(),
            (final(v)@, final(visit_map)@) == visit_all::<V, R>(
                self@.nodes,
                post_order(self@.nodes, n as nat, filled(old(visit_map)@)),
                old(visit_map)@,
                old(v)@,
            ),
            final(visit_map)@[n as int] == Some(r),
        decreases n,
    {
        let ghost nodes = self@.nodes;
        let ghost memo = visit_map@;
        let ghost state = v@;
        let ghost seen = filled(memo);
        let ghost order = post_order(nodes, n as nat, seen);
        proof {
            self.lemma_wf();
            assert(node_ok(nodes, n as int));
        }
        if let Some(r) = &visit_map[n] {
            assert(seen.contains(n as nat));
            return V::duplicate(r);
        }
        assert(!seen.contains(n as nat));
        assert(visit_all::<V, R>(nodes, Seq::<nat>::empty(), memo, state) == (state, memo));
        let r = match self.node(n) {
            Node::Input(name) => {
                proof {
                    assert(order =~= seq![n as nat]);
                    assert(order.drop_last() =~= Seq::<nat>::empty());
                }
                v.input(n, name.as_str())
            },
            Node::Constant(value) => {
                proof {
                    assert(order =~= seq![n as nat]);
                    assert(order.drop_last() =~= Seq::<nat>::empty());
                }
                v.constant(n, *value)
            },
            Node::Unary(op, child) => {
                let operand = self.traverse(*child, visit_map, v);
                proof {
                    let first = post_order(nodes, *child as nat, seen);
                    assert(order == first.push(n as nat));
                    assert(order.drop_last() =~= first);
                }
                v.unary(n, *op, operand)
            },
            Node::Binary(op, lhs, rhs) => {
                let left = self.traverse(*lhs, visit_map, v);
                let ghost between = visit_map@;
                let right = self.traverse(*rhs, visit_map, v);
                proof {
                    let first = post_order(nodes, *lhs as nat, seen);
                    lemma_post_order(nodes, *lhs as nat, seen);
                    lemma_visit_all_record::<V, R>(nodes, first, memo, state);
                    let second = post_order(nodes, *rhs as nat, seen.union(first.to_set()));
                    assert(filled(between) == seen.union(first.to_set()));
                    lemma_post_order(nodes, *rhs as nat, filled(between));
                    lemma_visit_all_record::<V, R>(
                        nodes,
                        second,
                        between,
                        visit_all::<V, R>(nodes, first, memo, state).0,
                    );
                    lemma_visit_all_joined::<V, R>(nodes, first, second, memo, state);
                    assert(order == (first + second).push(n as nat));
                    assert(order.drop_last() =~= first + second);
                    // The result of the left operand is still on record.
                    assert(filled(between).contains(*lhs as nat));
                    if second.contains(*lhs as nat) {
                        let k = choose|k: int| 0 <= k < second.len() && second[k] == *lhs as nat;
                        assert(!filled(between).contains(second[k]));
                    }
                    assert(visit_map@[*lhs as int] == between[*lhs as int]);
                }
                v.binary(n, *op, left, right)
            },
        };
        visit_map.set(n, Some(V::duplicate(&r)));
        r
    }
}

} // verus!
