//! The solver that asks nothing itself: it writes each query down in SMT-LIB
//! for a solver outside to read.

use vstd::prelude::*;
use crate::numeral::{decimal, push_decimal};
use crate::solver::bitvec::{BVOperator, BitVector};
use crate::solver::formula::{Formula, FormulaView, NodeView, SymbolId};
use crate::solver::reach::{
    known_before, lemma_known_before_last, lemma_operands_first_before_last,
    lemma_post_order_operands_first, lemma_walk_visits_reached, operands_before, operands_first,
    reaches,
};
use crate::solver::visitor::{
    filled, lemma_post_order, lemma_visit_all_record, post_order, visit, visit_all, FormulaVisitor,
};
use crate::solver::{Assignment, Solver, SolverError};

verus! {

/// The word of SMT-LIB for an operator.
pub open spec fn smt_token(op: BVOperator) -> Seq<char> {
    match op {
        BVOperator::Add => "bvadd"@,
        BVOperator::Sub => "bvsub"@,
        BVOperator::Not => "not"@,
        BVOperator::Mul => "bvmul"@,
        BVOperator::Divu => "bvudiv"@,
        BVOperator::Remu => "bvurem"@,
        BVOperator::Equals => "="@,
        BVOperator::BitwiseAnd => "bvand"@,
        BVOperator::Sltu => "bvult"@,
    }
}

/// The word of SMT-LIB for an operator.
pub fn to_smt(op: BVOperator) -> (r: &'static str)
    ensures
        r@ == smt_token(op),
{
    match op {
        BVOperator::Add => "bvadd",
        BVOperator::Sub => "bvsub",
        BVOperator::Not => "not",
        BVOperator::Mul => "bvmul",
        BVOperator::Divu => "bvudiv",
        BVOperator::Remu => "bvurem",
        BVOperator::Equals => "=",
        BVOperator::BitwiseAnd => "bvand",
        BVOperator::Sltu => "bvult",
    }
}

/// No two operators share a word.
pub proof fn lemma_tokens_distinct(a: BVOperator, b: BVOperator)
    requires
        smt_token(a) == smt_token(b),
    ensures
        a == b,
{
    reveal_strlit("bvadd");
    reveal_strlit("bvsub");
    reveal_strlit("not");
    reveal_strlit("bvmul");
    reveal_strlit("bvudiv");
    reveal_strlit("bvurem");
    reveal_strlit("=");
    reveal_strlit("bvand");
    reveal_strlit("bvult");
    assert("bvadd"@[2] == 'a' && "bvadd"@[3] == 'd');
    assert("bvsub"@[2] == 's');
    assert("not"@[0] == 'n');
    assert("bvmul"@[2] == 'm');
    assert("bvudiv"@[2] == 'u' && "bvudiv"@[3] == 'd');
    assert("bvurem"@[2] == 'u' && "bvurem"@[3] == 'r');
    assert("="@[0] == '=');
    assert("bvand"@[2] == 'a' && "bvand"@[3] == 'n');
    assert("bvult"@[2] == 'u' && "bvult"@[3] == 'l');
}

/// The line that opens a session.
pub open spec fn init_text() -> Seq<char> {
    "(set-logic QF_BV)\n"@
}

/// The line that opens a query.
pub open spec fn push_text() -> Seq<char> {
    "(push 1)\n"@
}

/// The lines that close a query.
pub open spec fn closing_text() -> Seq<char> {
    "(check-sat)\n(get-model)\n(pop 1)\n"@
}

/// The name of a node in what is written.
pub open spec fn symbol_text(id: nat) -> Seq<char> {
    "x"@ + decimal(id)
}

/// The declaration of a node.
pub open spec fn declaration_text(id: nat) -> Seq<char> {
    "(declare-fun "@ + symbol_text(id) + " () (_ BitVec 64))"@
}

/// What is written for a free variable, given its name in quotes.
pub open spec fn input_line(id: nat, quoted: Seq<char>) -> Seq<char> {
    declaration_text(id) + "; "@ + quoted + "\n"@
}

/// The name of a free variable as `Debug` formats a `str`: in quotes, with
/// what cannot stand in a line of text escaped.
pub uninterp spec fn quoted_text(name: Seq<char>) -> Seq<char>;

/// What is written for a free variable: its declaration, and its name in a
/// comment.
pub open spec fn input_text(id: nat, name: Seq<char>) -> Seq<char> {
    input_line(id, quoted_text(name))
}

/// What is written for a literal: its declaration and its value.
pub open spec fn constant_text(id: nat, value: u64) -> Seq<char> {
    declaration_text(id) + "\n(assert (= "@ + symbol_text(id) + " (_ bv"@ + decimal(value as nat)
        + " 64)))\n"@
}

/// What is written for an operator on one operand.
pub open spec fn unary_text(id: nat, op: BVOperator, operand: nat) -> Seq<char> {
    declaration_text(id) + "\n(assert (= "@ + symbol_text(id) + " ("@ + smt_token(op) + " "@
        + symbol_text(operand) + ")))\n"@
}

/// What is written for an operator on two operands.
pub open spec fn binary_text(id: nat, op: BVOperator, lhs: nat, rhs: nat) -> Seq<char> {
    declaration_text(id) + "\n(assert (= "@ + symbol_text(id) + " ("@ + smt_token(op) + " "@
        + symbol_text(lhs) + " "@ + symbol_text(rhs) + ")))\n"@
}

/// What is written for the node at `id`.
pub open spec fn node_text(nodes: Seq<NodeView>, id: nat) -> Seq<char> {
    match nodes[id as int] {
        NodeView::Input(name) => input_text(id, name),
        NodeView::Constant(value) => constant_text(id, value),
        NodeView::Unary(op, operand) => unary_text(id, op, operand),
        NodeView::Binary(op, lhs, rhs) => binary_text(id, op, lhs, rhs),
    }
}

/// What is written for the nodes of `order`, one after the other.
pub open spec fn body_text(nodes: Seq<NodeView>, order: Seq<nat>) -> Seq<char>
    decreases order.len(),
{
    if order.len() == 0 {
        Seq::empty()
    } else {
        body_text(nodes, order.drop_last()) + node_text(nodes, order.last())
    }
}

/// The nodes that a query declares, in the order of their declarations: those
/// that the root stands on, each once and after its operands.
pub open spec fn query_order(formula: FormulaView) -> Seq<nat> {
    match formula.root {
        Some(root) => post_order(formula.nodes, root, Set::empty()),
        None => Seq::empty(),
    }
}

/// What is written for one query: the opening of a scope, the nodes that the
/// root stands on, the questions, and the closing of the scope.
pub open spec fn query_text(formula: FormulaView) -> Seq<char> {
    push_text() + body_text(formula.nodes, query_order(formula)) + closing_text()
}

/// Writes the line that opens a session.
pub fn write_init(writer: &mut String) -> (r: Result<(), SolverError>)
    ensures
        r is Ok,
        final(writer)@ == old(writer)@ + init_text(),
{
    writer.append("(set-logic QF_BV)\n");
    Ok(())
}

/// Formats the name of a free variable with `{:?}`, as `Debug` formats a
/// `str`. What comes back depends on the name alone.
#[verifier::external_body]
fn debug_quoted(name: &str) -> (r: String)
    ensures
        r@ == quoted_text(name@),
{
    format!("{:?}", name)
}

/// Writes the name of a node.
fn write_symbol(out: &mut String, id: SymbolId)
    ensures
        final(out)@ == old(out)@ + symbol_text(id as nat),
{
    out.append("x");
    push_decimal(out, id as u64);
    assert(final(out)@ =~= old(out)@ + symbol_text(id as nat));
}

/// Writes the declaration of a node.
fn write_declaration(out: &mut String, id: SymbolId)
    ensures
        final(out)@ == old(out)@ + declaration_text(id as nat),
{
    out.append("(declare-fun ");
    write_symbol(out, id);
    out.append(" () (_ BitVec 64))");
    assert(final(out)@ =~= old(out)@ + declaration_text(id as nat));
}

/// Writes the declaration of a node and the start of the assertion that says
/// what the node is, up to the bracket that opens the right-hand side.
fn write_head(out: &mut String, id: SymbolId, opening: &str)
    ensures
        final(out)@ == old(out)@ + declaration_text(id as nat) + "\n(assert (= "@ + symbol_text(
            id as nat,
        ) + opening@,
{
    write_declaration(out, id);
    out.append("\n(assert (= ");
    write_symbol(out, id);
    out.append(opening);
    assert(final(out)@ =~= old(out)@ + declaration_text(id as nat) + "\n(assert (= "@
        + symbol_text(id as nat) + opening@);
}

/// Writes the lines of a free variable, given its name in quotes.
pub fn write_input(out: &mut String, idx: SymbolId, quoted: &str)
    ensures
        final(out)@ == old(out)@ + input_line(idx as nat, quoted@),
{
    write_declaration(out, idx);
    out.append("; ");
    out.append(quoted);
    out.append("\n");
    assert(final(out)@ =~= old(out)@ + input_line(idx as nat, quoted@));
}

/// Writes the lines of a literal.
pub fn write_constant(out: &mut String, idx: SymbolId, value: BitVector)
    ensures
        final(out)@ == old(out)@ + constant_text(idx as nat, value.0),
{
    write_head(out, idx, " (_ bv");
    push_decimal(out, value.0);
    out.append(" 64)))\n");
    assert(final(out)@ =~= old(out)@ + constant_text(idx as nat, value.0));
}

/// Writes the lines of an operator on one operand.
pub fn write_unary(out: &mut String, idx: SymbolId, op: BVOperator, operand: SymbolId)
    ensures
        final(out)@ == old(out)@ + unary_text(idx as nat, op, operand as nat),
{
    write_head(out, idx, " (");
    out.append(to_smt(op));
    out.append(" ");
    write_symbol(out, operand);
    out.append(")))\n");
    assert(final(out)@ =~= old(out)@ + unary_text(idx as nat, op, operand as nat));
}

/// Writes the lines of an operator on two operands.
pub fn write_binary(
    out: &mut String,
    idx: SymbolId,
    op: BVOperator,
    lhs: SymbolId,
    rhs: SymbolId,
)
    ensures
        final(out)@ == old(out)@ + binary_text(idx as nat, op, lhs as nat, rhs as nat),
{
    write_head(out, idx, " (");
    out.append(to_smt(op));
    out.append(" ");
    write_symbol(out, lhs);
    out.append(" ");
    write_symbol(out, rhs);
    out.append(")))\n");
    assert(final(out)@ =~= old(out)@ + binary_text(idx as nat, op, lhs as nat, rhs as nat));
}

/// The visitor that writes a formula down. It gives the identifier of each
/// node that it wrote. An operator one of whose operands came with an error
/// is not written: the error is handed on, that of the left operand first.
pub struct SmtPrinter {
    output: String,
}

impl View for SmtPrinter {
    type V = Seq<char>;

    closed spec fn view(&self) -> Seq<char> {
        self.output@
    }
}

impl SmtPrinter {
    /// A printer that has written nothing.
    pub fn new() -> (r: SmtPrinter)
        ensures
            r@ == Seq::<char>::empty(),
    {
        SmtPrinter { output: String::new() }
    }

    /// What has been written and not been taken.
    pub fn output(&self) -> (r: &str)
        ensures
            r@ == self@,
    {
        self.output.as_str()
    }

    /// Hands out what has been written, and keeps nothing.
    pub fn take_output(&mut self) -> (r: String)
        ensures
            r@ == old(self)@,
            final(self)@ == Seq::<char>::empty(),
    {
        let mut taken = String::new();
        std::mem::swap(&mut self.output, &mut taken);
        taken
    }

    /// Writes `text` as it is.
    pub fn write(&mut self, text: &str)
        ensures
            final(self)@ == old(self)@ + text@,
    {
        self.output.append(text);
    }
}

impl FormulaVisitor<Result<SymbolId, SolverError>> for SmtPrinter {
    open spec fn input_spec(state: Seq<char>, idx: nat, name: Seq<char>) -> (
        Seq<char>,
        Result<SymbolId, SolverError>,
    ) {
        (state + input_text(idx, name), Ok(idx as usize))
    }

    open spec fn constant_spec(state: Seq<char>, idx: nat, value: u64) -> (
        Seq<char>,
        Result<SymbolId, SolverError>,
    ) {
        (state + constant_text(idx, value), Ok(idx as usize))
    }

    open spec fn unary_spec(
        state: Seq<char>,
        idx: nat,
        op: BVOperator,
        operand: Result<SymbolId, SolverError>,
    ) -> (Seq<char>, Result<SymbolId, SolverError>) {
        match operand {
            Ok(operand) => (state + unary_text(idx, op, operand as nat), Ok(idx as usize)),
            Err(error) => (state, Err(error)),
        }
    }

    open spec fn binary_spec(
        state: Seq<char>,
        idx: nat,
        op: BVOperator,
        lhs: Result<SymbolId, SolverError>,
        rhs: Result<SymbolId, SolverError>,
    ) -> (Seq<char>, Result<SymbolId, SolverError>) {
        match lhs {
            Ok(lhs) => match rhs {
                Ok(rhs) => (
                    state + binary_text(idx, op, lhs as nat, rhs as nat),
                    Ok(idx as usize),
                ),
                Err(error) => (state, Err(error)),
            },
            Err(error) => (state, Err(error)),
        }
    }

    fn duplicate(result: &Result<SymbolId, SolverError>) -> (copy: Result<SymbolId, SolverError>) {
        *result
    }

    fn input(&mut self, idx: SymbolId, name: &str) -> (r: Result<SymbolId, SolverError>) {
        let quoted = debug_quoted(name);
        write_input(&mut self.output, idx, quoted.as_str());
        Ok(idx)
    }

    fn constant(&mut self, idx: SymbolId, v: BitVector) -> (r: Result<SymbolId, SolverError>) {
        write_constant(&mut self.output, idx, v);
        Ok(idx)
    }

    fn unary(&mut self, idx: SymbolId, op: BVOperator, v: Result<SymbolId, SolverError>) -> (r:
        Result<SymbolId, SolverError>) {
        match v {
            Ok(operand) => {
                write_unary(&mut self.output, idx, op, operand);
                Ok(idx)
            },
            Err(error) => Err(error),
        }
    }

    fn binary(
        &mut self,
        idx: SymbolId,
        op: BVOperator,
        lhs: Result<SymbolId, SolverError>,
        rhs: Result<SymbolId, SolverError>,
    ) -> (r: Result<SymbolId, SolverError>) {
        match lhs {
            Ok(left) => match rhs {
                Ok(right) => {
                    write_binary(&mut self.output, idx, op, left, right);
                    Ok(idx)
                },
                Err(error) => Err(error),
            },
            Err(error) => Err(error),
        }
    }
}

/// What a walk of the printer gives for a node.
pub type Printed = Result<SymbolId, SolverError>;

/// Whether every result on record is the identifier of its node.
pub open spec fn faithful(memo: Seq<Option<Printed>>) -> bool {
    forall|id: int|
        0 <= id < memo.len() ==> (#[trigger] memo[id] is Some ==> memo[id] == Some(
            Ok::<SymbolId, SolverError>(id as usize),
        ))
}

/// Where the printer visits nodes that come after their operands, and the
/// record it starts with is faithful, it writes the text of each node in turn,
/// and the record stays faithful.
pub proof fn lemma_printed(
    nodes: Seq<NodeView>,
    order: Seq<nat>,
    memo: Seq<Option<Printed>>,
    state: Seq<char>,
)
    requires
        nodes.len() == memo.len(),
        memo.len() <= usize::MAX,
        forall|k: int| 0 <= k < order.len() ==> #[trigger] order[k] < memo.len(),
        faithful(memo),
        operands_first(nodes, order, filled(memo)),
    ensures
        visit_all::<SmtPrinter, Printed>(nodes, order, memo, state).0 == state + body_text(
            nodes,
            order,
        ),
        faithful(visit_all::<SmtPrinter, Printed>(nodes, order, memo, state).1),
    decreases order.len(),
{
    if order.len() == 0 {
        assert(state + body_text(nodes, order) =~= state);
    } else {
        let rest = order.drop_last();
        let last = order.last();
        let at = order.len() - 1;
        let seen = filled(memo);
        lemma_operands_first_before_last(nodes, order, seen);
        lemma_printed(nodes, rest, memo, state);
        lemma_visit_all_record::<SmtPrinter, Printed>(nodes, rest, memo, state);
        let (before, record) = visit_all::<SmtPrinter, Printed>(nodes, rest, memo, state);
        assert(operands_before(nodes, order, at, seen));
        assert forall|id: nat| known_before(order, at, seen, id) implies id < record.len()
            && record[id as int] == Some(Ok::<SymbolId, SolverError>(id as usize)) by {
            lemma_known_before_last(order, seen, id);
            assert(filled(record).contains(id));
        }
        let (after, result) = visit::<SmtPrinter, Printed>(nodes, last, record, before);
        assert(after == before + node_text(nodes, last));
        assert(result == Ok::<SymbolId, SolverError>(last as usize));
        assert(state + body_text(nodes, order) =~= state + body_text(nodes, rest) + node_text(
            nodes,
            last,
        ));
    }
}

/// The nodes that a query declares are the nodes that the root stands on,
/// each declared once and after its operands.
pub proof fn lemma_one_declaration_per_node(formula: FormulaView)
    requires
        formula.wf(),
    ensures
        query_order(formula).no_duplicates(),
        operands_first(formula.nodes, query_order(formula), Set::empty()),
        forall|id: nat|
            query_order(formula).contains(id) <==> (formula.root matches Some(root) && reaches(
                formula.nodes,
                root,
                id,
            )),
{
    match formula.root {
        Some(root) => {
            lemma_walk_visits_reached(formula.nodes, root);
        },
        None => {},
    }
}

/// What is written for a query begins with the opening of a scope and ends
/// with its closing; between them stands what is written for the nodes.
pub proof fn lemma_query_balanced(formula: FormulaView)
    ensures
        query_text(formula).len() == push_text().len() + body_text(
            formula.nodes,
            query_order(formula),
        ).len() + closing_text().len(),
        query_text(formula).subrange(0, push_text().len() as int) == push_text(),
        query_text(formula).subrange(
            query_text(formula).len() - closing_text().len(),
            query_text(formula).len() as int,
        ) == closing_text(),
{
    assert(query_text(formula).subrange(0, push_text().len() as int) =~= push_text());
    assert(query_text(formula).subrange(
        query_text(formula).len() - closing_text().len(),
        query_text(formula).len() as int,
    ) =~= closing_text());
}

/// Two solvers that hold the same text and are asked about the same formula
/// hold the same text afterwards.
pub proof fn lemma_emission_determined(
    first: Seq<char>,
    second: Seq<char>,
    formula: FormulaView,
    other: FormulaView,
)
    requires
        first == second,
        formula == other,
    ensures
        first + query_text(formula) == second + query_text(other),
{
}

/// The solver that writes its queries down and answers none of them.
pub struct ExternalSolver {
    printer: SmtPrinter,
}

impl ExternalSolver {
    /// The text that the solver has written and that has not been taken.
    pub closed spec fn text(&self) -> Seq<char> {
        self.printer@
    }

    /// A solver that has written the opening of a session.
    pub fn new() -> (r: ExternalSolver)
        ensures
            r.text() == init_text(),
    {
        let mut output = String::new();
        let _ = write_init(&mut output);
        let mut printer = SmtPrinter { output };
        assert(printer@ =~= init_text());
        ExternalSolver { printer }
    }

    /// What has been written and not been taken.
    pub fn output(&self) -> (r: &str)
        ensures
            r@ == self.text(),
    {
        self.printer.output()
    }

    /// Hands out what has been written, for the caller to send on, and keeps
    /// nothing.
    pub fn take_output(&mut self) -> (r: String)
        ensures
            r@ == old(self).text(),
            final(self).text() == Seq::<char>::empty(),
    {
        self.printer.take_output()
    }
}

impl Default for ExternalSolver {
    fn default() -> (r: ExternalSolver)
        ensures
            r.text() == init_text(),
    {
        ExternalSolver::new()
    }
}

impl Solver for ExternalSolver {
    fn name() -> (r: &'static str)
        ensures
            r@ == "External"@,
    {
        "External"
    }

    /// Writes the query for `formula` after what is written already, and
    /// answers that it does not know.
    fn solve_impl(&mut self, formula: &Formula) -> (r: Result<Option<Assignment>, SolverError>)
        ensures
            r matches Err(SolverError::SatUnknown),
            final(self).text() == old(self).text() + query_text(formula@),
    {
        proof {
            formula.lemma_wf();
        }
        self.printer.write("(push 1)\n");
        let ghost opened = self.printer@;
        let result: Printed = match formula.root() {
            Some(root) => {
                let mut visited: Vec<Option<Printed>> = formula.new_visit_map();
                proof {
                    let order = post_order(formula@.nodes, root as nat, Set::empty());
                    lemma_post_order(formula@.nodes, root as nat, Set::empty());
                    lemma_post_order_operands_first(formula@.nodes, root as nat, Set::empty());
                    lemma_printed(formula@.nodes, order, visited@, opened);
                }
                formula.traverse(root, &mut visited, &mut self.printer)
            },
            None => {
                assert(opened + body_text(formula@.nodes, query_order(formula@)) =~= opened);
                Ok(0)
            },
        };
        assert(self.printer@ == opened + body_text(formula@.nodes, query_order(formula@)));
        self.printer.write("(check-sat)\n(get-model)\n(pop 1)\n");
        assert(self.printer@ =~= old(self).text() + query_text(formula@));
        match result {
            Ok(_) => Err(SolverError::SatUnknown),
            Err(error) => Err(error),
        }
    }
}

} // verus!
