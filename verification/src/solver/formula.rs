//! Formulas: acyclic graphs of bit-vector expressions, built node by node.

use std::collections::HashMap;
use vstd::prelude::*;
use vstd::std_specs::hash::*;
use crate::solver::bitvec::{BVOperator, BitVector};

verus! {

broadcast use vstd::std_specs::hash::group_hash_axioms;

/// The identifier of a node: its place in the formula, counted from zero in
/// the order of construction.
pub type SymbolId = usize;

/// A node of a formula.
#[derive(Debug)]
pub enum Node {
    /// A free variable of sixty-four bits.
    Input(String),
    /// A literal.
    Constant(BitVector),
    /// An operator on one earlier node.
    Unary(BVOperator, SymbolId),
    /// An operator on two earlier nodes.
    Binary(BVOperator, SymbolId, SymbolId),
}

/// What a node is, as a plain value.
pub enum NodeView {
    Input(Seq<char>),
    Constant(u64),
    Unary(BVOperator, nat),
    Binary(BVOperator, nat, nat),
}

impl View for Node {
    type V = NodeView;

    open spec fn view(&self) -> NodeView {
        match self {
            Node::Input(name) => NodeView::Input(name@),
            Node::Constant(value) => NodeView::Constant(value.0),
            Node::Unary(op, child) => NodeView::Unary(*op, *child as nat),
            Node::Binary(op, lhs, rhs) => NodeView::Binary(*op, *lhs as nat, *rhs as nat),
        }
    }
}

/// What a formula is, as a plain value: its nodes in the order of
/// construction, and the node that a query starts from, once one is chosen.
pub struct FormulaView {
    pub nodes: Seq<NodeView>,
    pub root: Option<nat>,
}

/// Whether the node at `id` stands on earlier nodes only, and carries an
/// operator of as many operands as it has.
pub open spec fn node_ok(nodes: Seq<NodeView>, id: int) -> bool {
    match nodes[id] {
        NodeView::Input(_) => true,
        NodeView::Constant(_) => true,
        NodeView::Unary(op, child) => child < id && op.unary(),
        NodeView::Binary(op, lhs, rhs) => lhs < id && rhs < id && !op.unary(),
    }
}

/// Whether every node stands on earlier nodes only.
pub open spec fn nodes_ok(nodes: Seq<NodeView>) -> bool {
    forall|id: int| 0 <= id < nodes.len() ==> node_ok(nodes, id)
}

impl FormulaView {
    /// Whether the formula is a graph without cycles whose root, if it has
    /// one, is one of its nodes.
    pub open spec fn wf(self) -> bool {
        &&& nodes_ok(self.nodes)
        &&& self.root matches Some(root) ==> root < self.nodes.len()
    }
}

/// A formula: the nodes, which are only ever added, the root of the next
/// query, and the place of every literal, so that one value has one node.
pub struct Formula {
    nodes: Vec<Node>,
    root: Option<SymbolId>,
    constants: HashMap<u64, SymbolId>,
}

impl View for Formula {
    type V = FormulaView;

    closed spec fn view(&self) -> FormulaView {
        FormulaView {
            nodes: self.nodes@.map_values(|node: Node| node@),
            root: match self.root {
                Some(root) => Some(root as nat),
                None => None,
            },
        }
    }
}

impl Formula {
    /// Whether the literals are all on record, each at its place.
    closed spec fn interned(self) -> bool {
        &&& forall|value: u64| #[trigger]
            self.constants@.contains_key(value) ==> self.constants@[value] < self.nodes.len()
                && self.nodes@[self.constants@[value] as int]@ == NodeView::Constant(value)
        &&& forall|id: int|
            0 <= id < self.nodes.len() ==> (#[trigger] self.nodes@[id]@ matches NodeView::Constant(
                value,
            ) ==> self.constants@.contains_key(value) && self.constants@[value] == id)
    }

    /// Whether the formula is a graph without cycles in which no literal
    /// occurs twice.
    pub closed spec fn wf(self) -> bool {
        &&& self@.wf()
        &&& self.interned()
        &&& self@.nodes.len() == self.nodes.len()
    }

    /// A formula that is well formed has a well-formed view, and no literal
    /// stands at two places in it.
    pub proof fn lemma_wf(self)
        requires
            self.wf(),
        ensures
            self@.wf(),
            forall|i: int, j: int|
                #![trigger self@.nodes[i], self@.nodes[j]]
                0 <= i < self@.nodes.len() && 0 <= j < self@.nodes.len() && self@.nodes[i]
                    is Constant && self@.nodes[i] == self@.nodes[j] ==> i == j,
    {
        assert forall|i: int, j: int|
            #![trigger self@.nodes[i], self@.nodes[j]]
            0 <= i < self@.nodes.len() && 0 <= j < self@.nodes.len() && self@.nodes[i]
                is Constant && self@.nodes[i] == self@.nodes[j] implies i == j by {
            assert(self.nodes@[i]@ == self@.nodes[i]);
            assert(self.nodes@[j]@ == self@.nodes[j]);
        }
    }

    /// A formula without nodes.
    pub fn new() -> (r: Formula)
        ensures
            r.wf(),
            r@.nodes.len() == 0,
            r@.root is None,
    {
        Formula { nodes: Vec::new(), root: None, constants: HashMap::new() }
    }

    /// The number of nodes.
    pub fn len(&self) -> (r: usize)
        requires
            self.wf(),
        ensures
            r == self@.nodes.len(),
    {
        self.nodes.len()
    }

    /// The root of the next query.
    pub fn root(&self) -> (r: Option<SymbolId>)
        ensures
            match r {
                Some(root) => self@.root == Some(root as nat),
                None => self@.root is None,
            },
    {
        self.root
    }

    /// The node at `id`.
    pub fn node(&self, id: SymbolId) -> (r: &Node)
        requires
            self.wf(),
            id < self@.nodes.len(),
        ensures
            r@ == self@.nodes[id as int],
    {
        &self.nodes[id]
    }

    /// Adds a node that the record of literals has nothing to say about.
    fn push(&mut self, node: Node) -> (id: SymbolId)
        requires
            old(self).wf(),
            !(node@ is Constant),
            node_ok(old(self)@.nodes.push(node@), old(self)@.nodes.len() as int),
        ensures
            final(self).wf(),
            id == old(self)@.nodes.len(),
            final(self)@.nodes == old(self)@.nodes.push(node@),
            final(self)@.root == old(self)@.root,
    {
        let id = self.nodes.len();
        let ghost view = node@;
        self.nodes.push(node);
        proof {
            assert(self@.nodes =~= old(self)@.nodes.push(view));
            assert forall|i: int| 0 <= i < self@.nodes.len() implies node_ok(self@.nodes, i) by {
                if i < id {
                    assert(node_ok(old(self)@.nodes, i));
                }
            }
            assert forall|i: int| 0 <= i < self.nodes.len() implies (
            #[trigger] self.nodes@[i]@ matches NodeView::Constant(value)
                ==> self.constants@.contains_key(value) && self.constants@[value] == i) by {
                if i < id {
                    assert(self.nodes@[i] == old(self).nodes@[i]);
                }
            }
        }
        id
    }

    /// Adds a free variable.
    pub fn input(&mut self, name: &str) -> (id: SymbolId)
        requires
            old(self).wf(),
        ensures
            final(self).wf(),
            id == old(self)@.nodes.len(),
            final(self)@.nodes == old(self)@.nodes.push(NodeView::Input(name@)),
            final(self)@.root == old(self)@.root,
    {
        self.push(Node::Input(String::from_str(name)))
    }

    /// The node of a literal: the one there is for the value, or a new one.
    pub fn constant(&mut self, value: BitVector) -> (id: SymbolId)
        requires
            old(self).wf(),
        ensures
            final(self).wf(),
            final(self)@.root == old(self)@.root,
            id < final(self)@.nodes.len(),
            final(self)@.nodes[id as int] == NodeView::Constant(value.0),
            old(self)@.nodes.contains(NodeView::Constant(value.0)) ==> final(self)@
                == old(self)@,
            !old(self)@.nodes.contains(NodeView::Constant(value.0)) ==> id == old(
                self,
            )@.nodes.len() && final(self)@.nodes == old(self)@.nodes.push(
                NodeView::Constant(value.0),
            ),
    {
        let found = match self.constants.get(&value.0) {
            Some(id) => Some(*id),
            None => None,
        };
        match found {
            Some(id) => {
                proof {
                    assert(self.nodes@[id as int]@ == NodeView::Constant(value.0));
                    assert(self@.nodes[id as int] == NodeView::Constant(value.0));
                }
                id
            },
            None => {
                proof {
                    if old(self)@.nodes.contains(NodeView::Constant(value.0)) {
                        let i = choose|i: int|
                            0 <= i < old(self)@.nodes.len() && old(self)@.nodes[i]
                                == NodeView::Constant(value.0);
                        assert(old(self).nodes@[i]@ == NodeView::Constant(value.0));
                    }
                }
                let id = self.nodes.len();
                self.nodes.push(Node::Constant(value));
                self.constants.insert(value.0, id);
                proof {
                    assert(self@.nodes =~= old(self)@.nodes.push(NodeView::Constant(value.0)));
                    assert forall|i: int| 0 <= i < self@.nodes.len() implies node_ok(
                        self@.nodes,
                        i,
                    ) by {
                        if i < id {
                            assert(node_ok(old(self)@.nodes, i));
                        }
                    }
                    assert forall|v: u64| #[trigger]
                        self.constants@.contains_key(v) implies self.constants@[v]
                        < self.nodes.len() && self.nodes@[self.constants@[v] as int]@
                        == NodeView::Constant(v) by {
                        if v != value.0 {
                            assert(old(self).constants@.contains_key(v));
                            assert(self.nodes@[self.constants@[v] as int] == old(
                                self,
                            ).nodes@[self.constants@[v] as int]);
                        }
                    }
                    assert forall|i: int| 0 <= i < self.nodes.len() implies (
                    #[trigger] self.nodes@[i]@ matches NodeView::Constant(v)
                        ==> self.constants@.contains_key(v) && self.constants@[v] == i) by {
                        if i < id {
                            assert(self.nodes@[i] == old(self).nodes@[i]);
                        }
                    }
                }
                id
            },
        }
    }

    /// Adds an operator on one node.
    pub fn unary(&mut self, op: BVOperator, child: SymbolId) -> (id: SymbolId)
        requires
            old(self).wf(),
            op.unary(),
            child < old(self)@.nodes.len(),
        ensures
            final(self).wf(),
            id == old(self)@.nodes.len(),
            final(self)@.nodes == old(self)@.nodes.push(NodeView::Unary(op, child as nat)),
            final(self)@.root == old(self)@.root,
    {
        self.push(Node::Unary(op, child))
    }

    /// Adds an operator on two nodes.
    pub fn binary(&mut self, op: BVOperator, lhs: SymbolId, rhs: SymbolId) -> (id: SymbolId)
        requires
            old(self).wf(),
            !op.unary(),
            lhs < old(self)@.nodes.len(),
            rhs < old(self)@.nodes.len(),
        ensures
            final(self).wf(),
            id == old(self)@.nodes.len(),
            final(self)@.nodes == old(self)@.nodes.push(
                NodeView::Binary(op, lhs as nat, rhs as nat),
            ),
            final(self)@.root == old(self)@.root,
    {
        self.push(Node::Binary(op, lhs, rhs))
    }

    /// A formula like this one, for the other side of a branch.
    pub fn fork(&self) -> (r: Formula)
        requires
            self.wf(),
        ensures
            r.wf(),
            r@ == self@,
    {
        let mut nodes: Vec<Node> = Vec::new();
        let mut i: usize = 0;
        while i < self.nodes.len()
            invariant
                i <= self.nodes.len(),
                nodes.len() == i,
                forall|k: int| 0 <= k < i ==> nodes@[k]@ == self.nodes@[k]@,
            decreases self.nodes.len() - i,
        {
            let node = match &self.nodes[i] {
                Node::Input(name) => Node::Input(name.clone()),
                Node::Constant(value) => Node::Constant(*value),
                Node::Unary(op, child) => Node::Unary(*op, *child),
                Node::Binary(op, lhs, rhs) => Node::Binary(*op, *lhs, *rhs),
            };
            nodes.push(node);
            i += 1;
        }
        let copy = Formula { nodes, root: self.root, constants: self.constants.clone() };
        proof {
            assert(copy@.nodes =~= self@.nodes);
            assert forall|value: u64| #[trigger]
                copy.constants@.contains_key(value) implies copy.constants@[value]
                < copy.nodes.len() && copy.nodes@[copy.constants@[value] as int]@
                == NodeView::Constant(value) by {
                assert(self.constants@.contains_key(value));
            }
            assert forall|id: int| 0 <= id < copy.nodes.len() implies (
            #[trigger] copy.nodes@[id]@ matches NodeView::Constant(value)
                ==> copy.constants@.contains_key(value) && copy.constants@[value] == id) by {
                assert(copy.nodes@[id]@ == self.nodes@[id]@);
            }
        }
        copy
    }

    /// Makes `root` the root of the next query.
    pub fn set_root(&mut self, root: SymbolId)
        requires
            old(self).wf(),
            root < old(self)@.nodes.len(),
        ensures
            final(self).wf(),
            final(self)@.nodes == old(self)@.nodes,
            final(self)@.root == Some(root as nat),
    {
        self.root = Some(root);
    }

    /// Extends the path condition by `predicate`: the new root is the
    /// conjunction of the old root and the predicate, or the predicate itself
    /// where there was no root.
    pub fn extend_root(&mut self, predicate: SymbolId) -> (root: SymbolId)
        requires
            old(self).wf(),
            predicate < old(self)@.nodes.len(),
        ensures
            final(self).wf(),
            final(self)@.root == Some(root as nat),
            match old(self)@.root {
                Some(before) => root == old(self)@.nodes.len() && final(self)@.nodes == old(
                    self,
                )@.nodes.push(NodeView::Binary(BVOperator::BitwiseAnd, before, predicate as nat)),
                None => root == predicate && final(self)@.nodes == old(self)@.nodes,
            },
    {
        let root = match self.root {
            Some(before) => self.binary(BVOperator::BitwiseAnd, before, predicate),
            None => predicate,
        };
        self.root = Some(root);
        root
    }
}

} // verus!
