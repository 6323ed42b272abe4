//! What a walk through a formula visits: the nodes that its start stands on,
//! and each of them after its operands.

use vstd::prelude::*;
use vstd::seq_lib::seq_to_set_distributes_over_add;
use crate::solver::formula::{nodes_ok, node_ok, NodeView};
use crate::solver::visitor::{lemma_post_order, post_order};

verus! {

/// Whether the node at `from` stands on the node at `to`: they are the same
/// node, or an operand of `from` stands on `to`.
pub open spec fn reaches(nodes: Seq<NodeView>, from: nat, to: nat) -> bool
    decreases from,
{
    from == to || match nodes[from as int] {
        NodeView::Unary(_, child) => child < from && reaches(nodes, child, to),
        NodeView::Binary(_, lhs, rhs) => (lhs < from && reaches(nodes, lhs, to)) || (rhs < from
            && reaches(nodes, rhs, to)),
        _ => false,
    }
}

/// Whether the operands of the node at `id` are all in `known`.
pub open spec fn operands_in(nodes: Seq<NodeView>, id: nat, known: Set<nat>) -> bool {
    match nodes[id as int] {
        NodeView::Unary(_, child) => known.contains(child),
        NodeView::Binary(_, lhs, rhs) => known.contains(lhs) && known.contains(rhs),
        _ => true,
    }
}

/// Whether `set` holds the operands of each of its nodes.
pub open spec fn closed_under_operands(nodes: Seq<NodeView>, set: Set<nat>) -> bool {
    forall|id: nat| #[trigger] set.contains(id) && id < nodes.len() ==> operands_in(nodes, id, set)
}

/// Whether `id` was seen before the walk or is among the first `k` nodes of
/// `order`.
pub open spec fn known_before(order: Seq<nat>, k: int, seen: Set<nat>, id: nat) -> bool {
    seen.contains(id) || exists|j: int| 0 <= j < k && #[trigger] order[j] == id
}

/// Whether the operands of the node at place `k` of `order` were seen before
/// the walk or come before place `k`.
pub open spec fn operands_before(nodes: Seq<NodeView>, order: Seq<nat>, k: int, seen: Set<nat>)
    -> bool {
    match nodes[order[k] as int] {
        NodeView::Unary(_, child) => known_before(order, k, seen, child),
        NodeView::Binary(_, lhs, rhs) => known_before(order, k, seen, lhs) && known_before(
            order,
            k,
            seen,
            rhs,
        ),
        _ => true,
    }
}

/// Whether every node of `order` comes after its operands, those apart that
/// were seen before the walk.
pub open spec fn operands_first(nodes: Seq<NodeView>, order: Seq<nat>, seen: Set<nat>) -> bool {
    forall|k: int| 0 <= k < order.len() ==> #[trigger] operands_before(nodes, order, k, seen)
}

/// What is known before a place of a run is known before the same place of a
/// longer run, and before every later place.
proof fn lemma_known_longer(
    short: Seq<nat>,
    long: Seq<nat>,
    at: int,
    offset: int,
    before: Set<nat>,
    seen: Set<nat>,
    id: nat,
)
    requires
        known_before(short, at, before, id),
        0 <= at <= short.len(),
        0 <= offset,
        offset + short.len() <= long.len(),
        forall|j: int| 0 <= j < short.len() ==> short[j] == long[offset + j],
        forall|x: nat|
            before.contains(x) ==> seen.contains(x) || exists|j: int|
                0 <= j < offset && #[trigger] long[j] == x,
    ensures
        known_before(long, offset + at, seen, id),
{
    if before.contains(id) {
        if !seen.contains(id) {
            let j = choose|j: int| 0 <= j < offset && #[trigger] long[j] == id;
            assert(0 <= j < offset + at && long[j] == id);
        }
    } else {
        let j = choose|j: int| 0 <= j < at && #[trigger] short[j] == id;
        assert(long[offset + j] == id);
        assert(0 <= offset + j < offset + at);
    }
}

/// Where a run of nodes is part of a longer run, a node whose operands come
/// first in the part has them first in the whole.
proof fn lemma_operands_longer(
    nodes: Seq<NodeView>,
    short: Seq<nat>,
    long: Seq<nat>,
    at: int,
    offset: int,
    before: Set<nat>,
    seen: Set<nat>,
)
    requires
        0 <= at < short.len(),
        operands_before(nodes, short, at, before),
        0 <= offset,
        offset + short.len() <= long.len(),
        forall|j: int| 0 <= j < short.len() ==> short[j] == long[offset + j],
        forall|x: nat|
            before.contains(x) ==> seen.contains(x) || exists|j: int|
                0 <= j < offset && #[trigger] long[j] == x,
    ensures
        operands_before(nodes, long, offset + at, seen),
{
    assert(short[at] == long[offset + at]);
    match nodes[short[at] as int] {
        NodeView::Unary(_, child) => {
            lemma_known_longer(short, long, at, offset, before, seen, child);
        },
        NodeView::Binary(_, lhs, rhs) => {
            lemma_known_longer(short, long, at, offset, before, seen, lhs);
            lemma_known_longer(short, long, at, offset, before, seen, rhs);
        },
        _ => {},
    }
}

/// A walk visits every node after its operands.
pub proof fn lemma_post_order_operands_first(nodes: Seq<NodeView>, n: nat, seen: Set<nat>)
    requires
        nodes_ok(nodes),
        n < nodes.len(),
    ensures
        operands_first(nodes, post_order(nodes, n, seen), seen),
    decreases n,
{
    let order = post_order(nodes, n, seen);
    if seen.contains(n) {
    } else {
        assert(node_ok(nodes, n as int));
        match nodes[n as int] {
            NodeView::Unary(_, child) => {
                let first = post_order(nodes, child, seen);
                lemma_post_order_operands_first(nodes, child, seen);
                lemma_post_order(nodes, child, seen);
                assert(order == first.push(n));
                assert forall|k: int| 0 <= k < order.len() implies #[trigger] operands_before(
                    nodes,
                    order,
                    k,
                    seen,
                ) by {
                    if k < first.len() {
                        assert(operands_before(nodes, first, k, seen));
                        lemma_operands_longer(nodes, first, order, k, 0, seen, seen);
                    } else {
                        if !seen.contains(child) {
                            assert(order[first.len() - 1] == child);
                        }
                    }
                }
            },
            NodeView::Binary(_, lhs, rhs) => {
                let first = post_order(nodes, lhs, seen);
                let between = seen.union(first.to_set());
                let second = post_order(nodes, rhs, between);
                lemma_post_order_operands_first(nodes, lhs, seen);
                lemma_post_order_operands_first(nodes, rhs, between);
                lemma_post_order(nodes, lhs, seen);
                lemma_post_order(nodes, rhs, between);
                assert(order == (first + second).push(n));
                assert forall|x: nat| between.contains(x) implies seen.contains(x) || exists|
                    j: int,
                |
                    0 <= j < first.len() && #[trigger] order[j] == x by {
                    if !seen.contains(x) {
                        assert(first.contains(x));
                        let j = choose|j: int| 0 <= j < first.len() && first[j] == x;
                        assert(order[j] == x);
                    }
                }
                assert forall|k: int| 0 <= k < order.len() implies #[trigger] operands_before(
                    nodes,
                    order,
                    k,
                    seen,
                ) by {
                    if k < first.len() {
                        assert(operands_before(nodes, first, k, seen));
                        lemma_operands_longer(nodes, first, order, k, 0, seen, seen);
                    } else if k < first.len() + second.len() {
                        assert(operands_before(nodes, second, k - first.len(), between));
                        lemma_operands_longer(
                            nodes,
                            second,
                            order,
                            k - first.len(),
                            first.len() as int,
                            between,
                            seen,
                        );
                    } else {
                        if !seen.contains(lhs) {
                            assert(order[first.len() - 1] == lhs);
                        }
                        if !seen.contains(rhs) {
                            if between.contains(rhs) {
                                let j = choose|j: int|
                                    0 <= j < first.len() && #[trigger] order[j] == rhs;
                                assert(0 <= j < k && order[j] == rhs);
                            } else {
                                assert(order[first.len() + second.len() - 1] == rhs);
                            }
                        }
                    }
                }
            },
            _ => {
                assert(order =~= seq![n]);
            },
        }
    }
}

/// Where every node of a run comes after its operands, the same holds of the
/// run without its last node.
pub proof fn lemma_operands_first_before_last(
    nodes: Seq<NodeView>,
    order: Seq<nat>,
    seen: Set<nat>,
)
    requires
        order.len() > 0,
        operands_first(nodes, order, seen),
    ensures
        operands_first(nodes, order.drop_last(), seen),
{
    let rest = order.drop_last();
    assert forall|k: int| 0 <= k < rest.len() implies #[trigger] operands_before(
        nodes,
        rest,
        k,
        seen,
    ) by {
        assert(operands_before(nodes, order, k, seen));
        assert(rest[k] == order[k]);
        assert forall|id: nat| known_before(order, k, seen, id) implies known_before(
            rest,
            k,
            seen,
            id,
        ) by {
            if !seen.contains(id) {
                let j = choose|j: int| 0 <= j < k && #[trigger] order[j] == id;
                assert(rest[j] == id);
            }
        }
    }
}

/// A node that is known before the last place of a run was seen before the
/// walk or is in the run without its last node.
pub proof fn lemma_known_before_last(order: Seq<nat>, seen: Set<nat>, id: nat)
    requires
        order.len() > 0,
        known_before(order, order.len() - 1, seen, id),
    ensures
        seen.contains(id) || order.drop_last().to_set().contains(id),
{
    if !seen.contains(id) {
        let j = choose|j: int| 0 <= j < order.len() - 1 && #[trigger] order[j] == id;
        assert(order.drop_last()[j] == id);
    }
}

/// A walk visits only nodes that its start stands on.
pub proof fn lemma_post_order_reached(nodes: Seq<NodeView>, n: nat, seen: Set<nat>)
    requires
        nodes_ok(nodes),
        n < nodes.len(),
    ensures
        forall|k: int|
            0 <= k < post_order(nodes, n, seen).len() ==> reaches(
                nodes,
                n,
                #[trigger] post_order(nodes, n, seen)[k],
            ),
    decreases n,
{
    let order = post_order(nodes, n, seen);
    if seen.contains(n) {
    } else {
        assert(node_ok(nodes, n as int));
        match nodes[n as int] {
            NodeView::Unary(_, child) => {
                let first = post_order(nodes, child, seen);
                lemma_post_order_reached(nodes, child, seen);
                assert forall|k: int| 0 <= k < order.len() implies reaches(
                    nodes,
                    n,
                    #[trigger] order[k],
                ) by {
                    if k < first.len() {
                        assert(reaches(nodes, child, first[k]));
                    }
                }
            },
            NodeView::Binary(_, lhs, rhs) => {
                let first = post_order(nodes, lhs, seen);
                let between = seen.union(first.to_set());
                let second = post_order(nodes, rhs, between);
                lemma_post_order_reached(nodes, lhs, seen);
                lemma_post_order_reached(nodes, rhs, between);
                assert forall|k: int| 0 <= k < order.len() implies reaches(
                    nodes,
                    n,
                    #[trigger] order[k],
                ) by {
                    if k < first.len() {
                        assert(reaches(nodes, lhs, first[k]));
                    } else if k < first.len() + second.len() {
                        assert(reaches(nodes, rhs, second[k - first.len()]));
                    }
                }
            },
            _ => {},
        }
    }
}

/// What was seen before a walk and what the walk visits hold the operands of
/// each of their nodes, if what was seen before did, and hold the start.
pub proof fn lemma_post_order_closed(nodes: Seq<NodeView>, n: nat, seen: Set<nat>)
    requires
        nodes_ok(nodes),
        n < nodes.len(),
        closed_under_operands(nodes, seen),
    ensures
        closed_under_operands(nodes, seen.union(post_order(nodes, n, seen).to_set())),
        seen.union(post_order(nodes, n, seen).to_set()).contains(n),
    decreases n,
{
    let order = post_order(nodes, n, seen);
    let all = seen.union(order.to_set());
    if seen.contains(n) {
        assert(all =~= seen);
    } else {
        assert(node_ok(nodes, n as int));
        match nodes[n as int] {
            NodeView::Unary(_, child) => {
                let first = post_order(nodes, child, seen);
                let inner = seen.union(first.to_set());
                lemma_post_order_closed(nodes, child, seen);
                first.lemma_push_to_set_commute(n);
                assert(all =~= inner.insert(n));
                assert forall|id: nat| #[trigger] all.contains(id) && id < nodes.len() implies operands_in(
                    nodes,
                    id,
                    all,
                ) by {
                    if id != n {
                        assert(inner.contains(id));
                        assert(operands_in(nodes, id, inner));
                    }
                }
            },
            NodeView::Binary(_, lhs, rhs) => {
                let first = post_order(nodes, lhs, seen);
                let between = seen.union(first.to_set());
                let second = post_order(nodes, rhs, between);
                let inner = between.union(second.to_set());
                lemma_post_order_closed(nodes, lhs, seen);
                lemma_post_order_closed(nodes, rhs, between);
                (first + second).lemma_push_to_set_commute(n);
                seq_to_set_distributes_over_add(first, second);
                assert(all =~= inner.insert(n));
                assert forall|id: nat| #[trigger] all.contains(id) && id < nodes.len() implies operands_in(
                    nodes,
                    id,
                    all,
                ) by {
                    if id != n {
                        assert(inner.contains(id));
                        assert(operands_in(nodes, id, inner));
                    }
                }
            },
            _ => {
                assert(order =~= seq![n]);
                Seq::<nat>::empty().lemma_push_to_set_commute(n);
                assert(Seq::<nat>::empty().push(n) =~= seq![n]);
                assert(Seq::<nat>::empty().to_set() =~= Set::<nat>::empty());
                assert(all =~= seen.insert(n));
                assert forall|id: nat| #[trigger] all.contains(id) && id < nodes.len() implies operands_in(
                    nodes,
                    id,
                    all,
                ) by {
                    if id != n {
                        assert(seen.contains(id));
                        assert(operands_in(nodes, id, seen));
                    }
                }
            },
        }
    }
}

/// A set that holds a node and the operands of each of its nodes holds all
/// that the node stands on.
pub proof fn lemma_closed_holds_reached(nodes: Seq<NodeView>, set: Set<nat>, from: nat, to: nat)
    requires
        nodes_ok(nodes),
        from < nodes.len(),
        closed_under_operands(nodes, set),
        set.contains(from),
        reaches(nodes, from, to),
    ensures
        set.contains(to),
    decreases from,
{
    if from != to {
        assert(operands_in(nodes, from, set));
        match nodes[from as int] {
            NodeView::Unary(_, child) => {
                lemma_closed_holds_reached(nodes, set, child, to);
            },
            NodeView::Binary(_, lhs, rhs) => {
                if lhs < from && reaches(nodes, lhs, to) {
                    lemma_closed_holds_reached(nodes, set, lhs, to);
                } else {
                    lemma_closed_holds_reached(nodes, set, rhs, to);
                }
            },
            _ => {},
        }
    }
}

/// A walk that starts with nothing seen visits the nodes that its start
/// stands on: all of them, no others, each once and after its operands.
pub proof fn lemma_walk_visits_reached(nodes: Seq<NodeView>, n: nat)
    requires
        nodes_ok(nodes),
        n < nodes.len(),
    ensures
        forall|id: nat| post_order(nodes, n, Set::empty()).contains(id) <==> reaches(nodes, n, id),
        post_order(nodes, n, Set::empty()).no_duplicates(),
        operands_first(nodes, post_order(nodes, n, Set::empty()), Set::empty()),
{
    let order = post_order(nodes, n, Set::empty());
    lemma_post_order(nodes, n, Set::empty());
    lemma_post_order_operands_first(nodes, n, Set::empty());
    lemma_post_order_reached(nodes, n, Set::empty());
    lemma_post_order_closed(nodes, n, Set::empty());
    let all = Set::<nat>::empty().union(order.to_set());
    assert forall|id: nat| order.contains(id) <==> reaches(nodes, n, id) by {
        if order.contains(id) {
            let k = choose|k: int| 0 <= k < order.len() && order[k] == id;
            assert(reaches(nodes, n, order[k]));
        }
        if reaches(nodes, n, id) {
            lemma_closed_holds_reached(nodes, all, n, id);
            assert(order.to_set().contains(id));
        }
    }
}

} // verus!
