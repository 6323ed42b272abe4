//! Bit-vector formulas and the solvers that are asked about them.

use std::collections::HashMap;
use vstd::prelude::*;
use crate::cli::{no_variant, no_variant_complaint, Readable};
use crate::text::text_eq;

pub mod bitvec;
pub mod evaluator;
pub mod external;
pub mod formula;
pub mod log;
pub mod reach;
pub mod visitor;

pub use bitvec::{BVOperator, BitVector};
pub use external::ExternalSolver;
pub use formula::{Formula, FormulaView, Node, NodeView, SymbolId};
use formula::{node_ok, nodes_ok};
pub use visitor::FormulaVisitor;

verus! {

/// Why a solver gave no answer.
#[derive(Clone, Copy, Debug, PartialEq, Eq, Structural)]
pub enum SolverError {
    /// The solver could not tell whether the formula can be satisfied.
    SatUnknown,
    /// The solver ran out of time.
    Timeout,
    /// What the solver wrote or read did not get through.
    IoError,
}

/// A value for each free variable that matters, by the node of the variable.
pub type Assignment = HashMap<SymbolId, BitVector>;

/// The values that an assignment gives, as a plain map. The nodes beyond the
/// greatest identifier have none.
pub open spec fn assigned(assignment: Map<SymbolId, BitVector>) -> Map<nat, u64> {
    Map::new(
        |id: nat| id <= usize::MAX && assignment.contains_key(id as usize),
        |id: nat| assignment[id as usize].0,
    )
}

/// The value of the node at `id` where the free variables have the values of
/// `inputs`; a variable without a value counts as zero.
pub open spec fn value_of(nodes: Seq<NodeView>, id: nat, inputs: Map<nat, u64>) -> u64
    decreases id,
{
    match nodes[id as int] {
        NodeView::Input(_) => if inputs.contains_key(id) {
            inputs[id]
        } else {
            0
        },
        NodeView::Constant(value) => value,
        NodeView::Unary(op, child) => if child < id {
            bitvec::unary_value(op, value_of(nodes, child, inputs))
        } else {
            0
        },
        NodeView::Binary(op, lhs, rhs) => if lhs < id && rhs < id {
            bitvec::binary_value(op, value_of(nodes, lhs, inputs), value_of(nodes, rhs, inputs))
        } else {
            0
        },
    }
}

/// Whether the values of `inputs` make the root of the formula other than
/// zero.
pub open spec fn satisfies(formula: FormulaView, inputs: Map<nat, u64>) -> bool {
    formula.root matches Some(root) && value_of(formula.nodes, root, inputs) != 0
}

/// Whether `longer` begins with the nodes of `nodes`.
pub open spec fn extends(nodes: Seq<NodeView>, longer: Seq<NodeView>) -> bool {
    nodes.len() <= longer.len() && longer.subrange(0, nodes.len() as int) == nodes
}

/// The value of a node stays what it is when nodes are added to the formula.
pub proof fn lemma_value_stays(
    nodes: Seq<NodeView>,
    longer: Seq<NodeView>,
    id: nat,
    inputs: Map<nat, u64>,
)
    requires
        nodes_ok(nodes),
        extends(nodes, longer),
        id < nodes.len(),
    ensures
        value_of(longer, id, inputs) == value_of(nodes, id, inputs),
    decreases id,
{
    assert(longer[id as int] == longer.subrange(0, nodes.len() as int)[id as int]);
    assert(node_ok(nodes, id as int));
    match nodes[id as int] {
        NodeView::Unary(_, child) => {
            lemma_value_stays(nodes, longer, child, inputs);
        },
        NodeView::Binary(_, lhs, rhs) => {
            lemma_value_stays(nodes, longer, lhs, inputs);
            lemma_value_stays(nodes, longer, rhs, inputs);
        },
        _ => {},
    }
}

/// A backend that is asked whether a formula can be satisfied. An assignment
/// says that it can and how, `None` that it cannot.
pub trait Solver {
    /// The name of the backend.
    fn name() -> &'static str;

    /// Asks about one formula.
    fn solve_impl(&mut self, formula: &Formula) -> (r: Result<Option<Assignment>, SolverError>)
        requires
            formula.wf(),
        ensures
            r matches Ok(Some(assignment)) ==> satisfies(formula@, assigned(assignment@)),
            r matches Ok(None) ==> forall|inputs: Map<nat, u64>| !satisfies(formula@, inputs),
    ;
}

/// The backends there are to choose from.
#[derive(Clone, Copy, Debug, PartialEq, Eq, Structural)]
pub enum SolverType {
    Monster,
    External,
}

impl SolverType {
    /// The name of a backend on the command line.
    pub open spec fn name_of(self) -> Seq<char> {
        match self {
            SolverType::Monster => "monster"@,
            SolverType::External => "external"@,
        }
    }

    pub fn name(&self) -> (r: &'static str)
        ensures
            r@ == self.name_of(),
    {
        match self {
            SolverType::Monster => "monster",
            SolverType::External => "external",
        }
    }

    /// The backend that `text` names, if it names one.
    pub fn from_name(text: &str) -> (r: Option<SolverType>)
        ensures
            r matches Some(backend) ==> backend.name_of() == text@,
            r is None ==> forall|backend: SolverType| backend.name_of() != text@,
    {
        if text_eq(text, "monster") {
            Some(SolverType::Monster)
        } else if text_eq(text, "external") {
            Some(SolverType::External)
        } else {
            None
        }
    }

    /// The names of all backends.
    pub fn variants() -> (r: Vec<&'static str>)
        ensures
            r@.len() == 2,
            r@[0]@ == SolverType::Monster.name_of(),
            r@[1]@ == SolverType::External.name_of(),
    {
        let mut names: Vec<&'static str> = Vec::new();
        names.push(SolverType::Monster.name());
        names.push(SolverType::External.name());
        names
    }

    /// No two backends share a name.
    pub proof fn lemma_names_distinct(a: SolverType, b: SolverType)
        requires
            a.name_of() == b.name_of(),
        ensures
            a == b,
    {
        reveal_strlit("monster");
        reveal_strlit("external");
        assert("monster"@[0] == 'm' && "external"@[0] == 'e');
    }
}

impl Readable for SolverType {
    open spec fn read_spec(text: Seq<char>) -> Option<SolverType> {
        if text == SolverType::Monster.name_of() {
            Some(SolverType::Monster)
        } else if text == SolverType::External.name_of() {
            Some(SolverType::External)
        } else {
            None
        }
    }

    open spec fn complaint_spec(text: Seq<char>) -> Seq<char> {
        no_variant_complaint()
    }

    fn read(text: &str) -> (r: Result<SolverType, String>) {
        match SolverType::from_name(text) {
            Some(backend) => {
                proof {
                    let found = SolverType::read_spec(text@);
                    assert(found is Some);
                    SolverType::lemma_names_distinct(found->0, backend);
                }
                Ok(backend)
            },
            None => {
                assert(SolverType::Monster.name_of() != text@ && SolverType::External.name_of() != text@);
                Err(no_variant())
            },
        }
    }
}

} // verus!
