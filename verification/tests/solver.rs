use monster::numeral::push_decimal;
use monster::solver::evaluator::{evaluate, is_satisfied_by};
use monster::solver::external::{to_smt, write_init, SmtPrinter};
use monster::solver::log::{walk_order, VisitLog};
use monster::solver::{
    Assignment, BVOperator, BitVector, ExternalSolver, Formula, FormulaVisitor, Node, Solver,
    SolverError,
};
use monster::text::text_eq;

const ALL_OPERATORS: [BVOperator; 9] = [
    BVOperator::Add,
    BVOperator::Sub,
    BVOperator::Mul,
    BVOperator::Divu,
    BVOperator::Remu,
    BVOperator::Not,
    BVOperator::Equals,
    BVOperator::BitwiseAnd,
    BVOperator::Sltu,
];

fn decimal(n: u64) -> String {
    let mut out = String::new();
    push_decimal(&mut out, n);
    out
}

#[test]
fn emitter_writes_the_logic_first() {
    let solver = ExternalSolver::new();
    assert_eq!(solver.output(), "(set-logic QF_BV)\n");
    let solver = ExternalSolver::default();
    assert_eq!(solver.output(), "(set-logic QF_BV)\n");
    let mut text = String::from("; session\n");
    assert_eq!(write_init(&mut text), Ok(()));
    assert_eq!(text, "; session\n(set-logic QF_BV)\n");
    assert_eq!(ExternalSolver::name(), "External");
}

#[test]
fn emitter_trace_of_an_equality() {
    let mut formula = Formula::new();
    let x = formula.input("x");
    let c = formula.constant(BitVector(42));
    let eq = formula.binary(BVOperator::Equals, x, c);
    formula.set_root(eq);

    let mut solver = ExternalSolver::new();
    let answer = solver.solve_impl(&formula);

    assert!(matches!(answer, Err(SolverError::SatUnknown)));
    assert_eq!(
        solver.output(),
        "(set-logic QF_BV)\n\
         (push 1)\n\
         (declare-fun x0 () (_ BitVec 64)); \"x\"\n\
         (declare-fun x1 () (_ BitVec 64))\n\
         (assert (= x1 (_ bv42 64)))\n\
         (declare-fun x2 () (_ BitVec 64))\n\
         (assert (= x2 (= x0 x1)))\n\
         (check-sat)\n\
         (get-model)\n\
         (pop 1)\n"
    );
}

#[test]
fn emitter_declares_a_shared_input_once() {
    let mut formula = Formula::new();
    let y = formula.input("y");
    let one = formula.constant(BitVector(1));
    let sum = formula.binary(BVOperator::Add, y, one);
    let product = formula.binary(BVOperator::Mul, y, sum);
    let root = formula.binary(BVOperator::Equals, sum, product);
    formula.set_root(root);

    let mut solver = ExternalSolver::new();
    let _ = solver.solve_impl(&formula);
    let text = solver.take_output();

    assert_eq!(text.matches("(declare-fun x0 ").count(), 1);
    for id in 0..formula.len() {
        assert_eq!(text.matches(&format!("(declare-fun x{} ", id)).count(), 1);
    }
    assert_eq!(text.matches("(declare-fun ").count(), 5);
}

#[test]
fn emitter_writes_operands_before_operators_left_first() {
    let mut formula = Formula::new();
    let a = formula.input("a");
    let b = formula.input("b");
    let root = formula.binary(BVOperator::Sltu, b, a);
    formula.set_root(root);

    let mut solver = ExternalSolver::new();
    let _ = solver.solve_impl(&formula);
    let text = solver.take_output();

    let at = |id: usize| text.find(&format!("(declare-fun x{} ", id)).unwrap();
    assert!(at(b) < at(a));
    assert!(at(a) < at(root));
    assert!(text.contains("(assert (= x2 (bvult x1 x0)))\n"));
}

#[test]
fn emitter_leaves_out_what_the_root_does_not_stand_on() {
    let mut formula = Formula::new();
    let x = formula.input("x");
    let _unused = formula.input("unused");
    let not = formula.unary(BVOperator::Not, x);
    formula.set_root(not);

    let mut solver = ExternalSolver::new();
    let _ = solver.solve_impl(&formula);

    assert_eq!(
        solver.output(),
        "(set-logic QF_BV)\n\
         (push 1)\n\
         (declare-fun x0 () (_ BitVec 64)); \"x\"\n\
         (declare-fun x2 () (_ BitVec 64))\n\
         (assert (= x2 (not x0)))\n\
         (check-sat)\n\
         (get-model)\n\
         (pop 1)\n"
    );
}

#[test]
fn emitter_is_deterministic() {
    let mut formula = Formula::new();
    let x = formula.input("x");
    let ten = formula.constant(BitVector(10));
    let less = formula.binary(BVOperator::Sltu, x, ten);
    formula.set_root(less);

    let mut first = ExternalSolver::new();
    let mut second = ExternalSolver::new();
    let _ = first.solve_impl(&formula);
    let _ = second.solve_impl(&formula);

    assert_eq!(first.output().as_bytes(), second.output().as_bytes());
}

#[test]
fn emitter_balances_push_and_pop() {
    let mut formula = Formula::new();
    let x = formula.input("x");
    let zero = formula.constant(BitVector(0));
    let eq = formula.binary(BVOperator::Equals, x, zero);
    formula.set_root(eq);

    let mut solver = ExternalSolver::new();
    let _ = solver.take_output();
    for round in 1..=3 {
        let _ = solver.solve_impl(&formula);
        let text = solver.output();
        assert_eq!(text.matches("(push 1)\n").count(), round);
        assert_eq!(text.matches("(pop 1)\n").count(), round);
        assert!(text.starts_with("(push 1)\n"));
        assert!(text.ends_with("(check-sat)\n(get-model)\n(pop 1)\n"));
    }
}

#[test]
fn emitter_writes_an_empty_scope_without_a_root() {
    let formula = Formula::new();
    let mut solver = ExternalSolver::new();
    let answer = solver.solve_impl(&formula);
    assert!(matches!(answer, Err(SolverError::SatUnknown)));
    assert_eq!(
        solver.output(),
        "(set-logic QF_BV)\n(push 1)\n(check-sat)\n(get-model)\n(pop 1)\n"
    );
}

#[test]
fn take_output_keeps_nothing() {
    let mut solver = ExternalSolver::new();
    assert_eq!(solver.take_output(), "(set-logic QF_BV)\n");
    assert_eq!(solver.output(), "");
    assert_eq!(solver.take_output(), "");
}

#[test]
fn branch_that_cannot_be_taken_is_unknown_to_the_emitter() {
    let mut formula = Formula::new();
    let x = formula.input("x");
    let ten = formula.constant(BitVector(10));
    let less = formula.binary(BVOperator::Sltu, x, ten);
    let not_less = formula.unary(BVOperator::Not, less);
    formula.set_root(less);
    let root = formula.extend_root(not_less);

    assert_eq!(formula.root(), Some(root));
    assert!(matches!(formula.node(root), Node::Binary(BVOperator::BitwiseAnd, l, r) if *l == less && *r == not_less));

    let mut solver = ExternalSolver::new();
    assert!(matches!(solver.solve_impl(&formula), Err(SolverError::SatUnknown)));
    assert!(solver.output().contains("(assert (= x4 (bvand x2 x3)))\n"));
}

#[test]
fn input_names_are_quoted_and_escaped() {
    let mut formula = Formula::new();
    let x = formula.input("a \"b\"\n(pop 1)");
    formula.set_root(x);

    let mut solver = ExternalSolver::new();
    let _ = solver.take_output();
    let _ = solver.solve_impl(&formula);

    assert_eq!(
        solver.output(),
        "(push 1)\n\
         (declare-fun x0 () (_ BitVec 64)); \"a \\\"b\\\"\\n(pop 1)\"\n\
         (check-sat)\n\
         (get-model)\n\
         (pop 1)\n"
    );
}

#[test]
fn operators_have_their_words() {
    assert_eq!(to_smt(BVOperator::Add), "bvadd");
    assert_eq!(to_smt(BVOperator::Sub), "bvsub");
    assert_eq!(to_smt(BVOperator::Mul), "bvmul");
    assert_eq!(to_smt(BVOperator::Divu), "bvudiv");
    assert_eq!(to_smt(BVOperator::Remu), "bvurem");
    assert_eq!(to_smt(BVOperator::Not), "not");
    assert_eq!(to_smt(BVOperator::Equals), "=");
    assert_eq!(to_smt(BVOperator::BitwiseAnd), "bvand");
    assert_eq!(to_smt(BVOperator::Sltu), "bvult");
}

#[test]
fn operators_share_no_word() {
    for (i, a) in ALL_OPERATORS.iter().enumerate() {
        for (j, b) in ALL_OPERATORS.iter().enumerate() {
            assert_eq!(to_smt(*a) == to_smt(*b), i == j);
        }
    }
}

#[test]
fn only_not_is_unary() {
    for op in ALL_OPERATORS {
        assert_eq!(op.is_unary(), op == BVOperator::Not);
        assert_eq!(op.is_binary(), op != BVOperator::Not);
    }
}

#[test]
fn printer_writes_each_kind_of_node() {
    let mut printer = SmtPrinter::new();
    assert_eq!(printer.input(0, "x"), Ok(0));
    assert_eq!(printer.take_output(), "(declare-fun x0 () (_ BitVec 64)); \"x\"\n");
    assert_eq!(printer.constant(7, BitVector(u64::MAX)), Ok(7));
    assert_eq!(
        printer.take_output(),
        "(declare-fun x7 () (_ BitVec 64))\n(assert (= x7 (_ bv18446744073709551615 64)))\n"
    );
    assert_eq!(printer.unary(12, BVOperator::Not, Ok(3)), Ok(12));
    assert_eq!(
        printer.take_output(),
        "(declare-fun x12 () (_ BitVec 64))\n(assert (= x12 (not x3)))\n"
    );
    assert_eq!(printer.binary(100, BVOperator::Remu, Ok(99), Ok(5)), Ok(100));
    assert_eq!(
        printer.take_output(),
        "(declare-fun x100 () (_ BitVec 64))\n(assert (= x100 (bvurem x99 x5)))\n"
    );
}

#[test]
fn printer_hands_errors_on_and_writes_nothing() {
    let mut printer = SmtPrinter::new();
    assert_eq!(printer.unary(1, BVOperator::Not, Err(SolverError::IoError)), Err(SolverError::IoError));
    assert_eq!(
        printer.binary(2, BVOperator::Add, Err(SolverError::IoError), Ok(0)),
        Err(SolverError::IoError)
    );
    assert_eq!(
        printer.binary(2, BVOperator::Add, Ok(0), Err(SolverError::Timeout)),
        Err(SolverError::Timeout)
    );
    assert_eq!(
        printer.binary(2, BVOperator::Add, Err(SolverError::IoError), Err(SolverError::Timeout)),
        Err(SolverError::IoError)
    );
    assert_eq!(printer.output(), "");
}

#[test]
fn printer_write_appends() {
    let mut printer = SmtPrinter::new();
    printer.write("(push 1)\n");
    printer.write("(pop 1)\n");
    assert_eq!(printer.output(), "(push 1)\n(pop 1)\n");
}

#[test]
fn constants_are_interned() {
    let mut formula = Formula::new();
    let a = formula.constant(BitVector(5));
    let x = formula.input("x");
    let b = formula.constant(BitVector(5));
    let c = formula.constant(BitVector(6));
    assert_eq!(a, b);
    assert_ne!(a, c);
    assert_eq!(formula.len(), 3);
    assert_eq!((a, x, c), (0, 1, 2));
    assert!(matches!(formula.node(c), Node::Constant(BitVector(6))));
}

#[test]
fn inputs_are_not_interned() {
    let mut formula = Formula::new();
    let a = formula.input("x");
    let b = formula.input("x");
    assert_ne!(a, b);
    assert_eq!(formula.len(), 2);
    assert!(matches!(formula.node(b), Node::Input(name) if name == "x"));
}

#[test]
fn identifiers_are_dense_and_children_come_first() {
    let mut formula = Formula::new();
    assert_eq!(formula.len(), 0);
    assert_eq!(formula.root(), None);
    let x = formula.input("x");
    let c = formula.constant(BitVector(3));
    let sum = formula.binary(BVOperator::Add, x, c);
    let not = formula.unary(BVOperator::Not, sum);
    assert_eq!((x, c, sum, not), (0, 1, 2, 3));
    for id in 0..formula.len() {
        match formula.node(id) {
            Node::Unary(_, child) => assert!(*child < id),
            Node::Binary(_, lhs, rhs) => assert!(*lhs < id && *rhs < id),
            _ => {},
        }
    }
}

#[test]
fn root_is_extended_by_conjunction() {
    let mut formula = Formula::new();
    let x = formula.input("x");
    let zero = formula.constant(BitVector(0));
    let p = formula.binary(BVOperator::Equals, x, zero);
    let q = formula.binary(BVOperator::Sltu, x, zero);
    assert_eq!(formula.extend_root(p), p);
    assert_eq!(formula.root(), Some(p));
    let len = formula.len();
    let root = formula.extend_root(q);
    assert_eq!(root, len);
    assert_eq!(formula.len(), len + 1);
    assert!(matches!(formula.node(root), Node::Binary(BVOperator::BitwiseAnd, l, r) if *l == p && *r == q));
}

#[test]
fn traversal_visits_each_node_once() {
    let mut formula = Formula::new();
    let x = formula.input("x");
    let mut top = x;
    for _ in 0..10 {
        top = formula.binary(BVOperator::Add, top, top);
    }
    let mut log = VisitLog::new();
    let mut record = formula.new_visit_map();
    let result = formula.traverse(top, &mut record, &mut log);

    // As a tree the formula has 2^11 - 1 nodes; as a graph it has eleven.
    assert_eq!(result, top);
    assert_eq!(*log.visited(), (0..=10).collect::<Vec<usize>>());
    assert_eq!(record.iter().filter(|slot| slot.is_some()).count(), 11);
    assert_eq!(walk_order(&formula, top), (0..=10).collect::<Vec<usize>>());
}

#[test]
fn traversal_does_not_visit_what_is_on_record() {
    let mut formula = Formula::new();
    let x = formula.input("x");
    let y = formula.input("y");
    let sum = formula.binary(BVOperator::Add, x, y);
    let root = formula.unary(BVOperator::Not, sum);

    let mut log = VisitLog::new();
    let mut record = formula.new_visit_map();
    assert_eq!(formula.traverse(sum, &mut record, &mut log), sum);
    assert_eq!(*log.visited(), vec![x, y, sum]);
    assert_eq!(formula.traverse(root, &mut record, &mut log), root);
    assert_eq!(*log.visited(), vec![x, y, sum, root]);
    assert_eq!(formula.traverse(root, &mut record, &mut log), root);
    assert_eq!(*log.visited(), vec![x, y, sum, root]);
    assert_eq!(record, vec![Some(x), Some(y), Some(sum), Some(root)]);
}

#[test]
fn traversal_takes_the_left_operand_first() {
    let mut formula = Formula::new();
    let a = formula.input("a");
    let b = formula.input("b");
    let c = formula.input("c");
    let right = formula.binary(BVOperator::Sub, a, b);
    let left = formula.binary(BVOperator::Mul, c, a);
    let root = formula.binary(BVOperator::Equals, left, right);

    assert_eq!(walk_order(&formula, root), vec![c, a, left, b, right, root]);
    assert_eq!(walk_order(&formula, right), vec![a, b, right]);
    assert_eq!(walk_order(&formula, b), vec![b]);
}

#[test]
fn new_visit_map_is_empty_and_as_long_as_the_formula() {
    let mut formula = Formula::new();
    assert_eq!(formula.new_visit_map::<usize>(), Vec::<Option<usize>>::new());
    formula.input("x");
    formula.constant(BitVector(1));
    assert_eq!(formula.new_visit_map::<usize>(), vec![None, None]);
}

#[test]
fn evaluation_follows_the_operators() {
    let mut formula = Formula::new();
    let x = formula.input("x");
    let ten = formula.constant(BitVector(10));
    let less = formula.binary(BVOperator::Sltu, x, ten);
    formula.set_root(less);

    let mut assignment = Assignment::new();
    assert_eq!(evaluate(&formula, &assignment), Some(BitVector(1)));
    assignment.insert(x, BitVector(9));
    assert_eq!(evaluate(&formula, &assignment), Some(BitVector(1)));
    assert!(is_satisfied_by(&formula, &assignment));
    assignment.insert(x, BitVector(10));
    assert_eq!(evaluate(&formula, &assignment), Some(BitVector(0)));
    assert!(!is_satisfied_by(&formula, &assignment));
}

#[test]
fn evaluation_of_arithmetic_is_exact() {
    let mut formula = Formula::new();
    let x = formula.input("x");
    let y = formula.input("y");
    let sum = formula.binary(BVOperator::Add, x, y);
    let product = formula.binary(BVOperator::Mul, sum, sum);
    let seven = formula.constant(BitVector(7));
    let rest = formula.binary(BVOperator::Remu, product, seven);
    formula.set_root(rest);

    let mut assignment = Assignment::new();
    assignment.insert(x, BitVector(3));
    assignment.insert(y, BitVector(5));
    // (3 + 5)^2 mod 7 = 64 mod 7 = 1
    assert_eq!(evaluate(&formula, &assignment), Some(BitVector(1)));
    assignment.insert(x, BitVector(u64::MAX));
    // (2^64 - 1 + 5) wraps to 4; 4^2 mod 7 = 2
    assert_eq!(evaluate(&formula, &assignment), Some(BitVector(2)));
}

#[test]
fn contradiction_is_satisfied_by_no_value() {
    let mut formula = Formula::new();
    let x = formula.input("x");
    let ten = formula.constant(BitVector(10));
    let less = formula.binary(BVOperator::Sltu, x, ten);
    let not_less = formula.unary(BVOperator::Not, less);
    formula.extend_root(less);
    formula.extend_root(not_less);

    for value in [0, 1, 9, 10, 11, u64::MAX] {
        let mut assignment = Assignment::new();
        assignment.insert(x, BitVector(value));
        assert_eq!(evaluate(&formula, &assignment), Some(BitVector(0)));
        assert!(!is_satisfied_by(&formula, &assignment));
    }
}

#[test]
fn formula_without_a_root_has_no_value() {
    let mut formula = Formula::new();
    formula.input("x");
    let assignment = Assignment::new();
    assert_eq!(evaluate(&formula, &assignment), None);
    assert!(!is_satisfied_by(&formula, &assignment));
}

#[test]
fn bit_vectors_wrap_around() {
    let max = BitVector(u64::MAX);
    let one = BitVector(1);
    let zero = BitVector(0);
    assert_eq!(BitVector::binary(BVOperator::Add, max, one), zero);
    assert_eq!(BitVector::binary(BVOperator::Sub, zero, one), max);
    assert_eq!(BitVector::binary(BVOperator::Mul, max, BitVector(2)), BitVector(u64::MAX - 1));
    assert_eq!(BitVector::binary(BVOperator::Add, BitVector(40), BitVector(2)), BitVector(42));
    assert_eq!(BitVector::binary(BVOperator::Sub, BitVector(40), BitVector(2)), BitVector(38));
    assert_eq!(BitVector::binary(BVOperator::Mul, BitVector(6), BitVector(7)), BitVector(42));
}

#[test]
fn bit_vectors_do_not_trap_on_division_by_zero() {
    let seven = BitVector(7);
    let zero = BitVector(0);
    assert_eq!(BitVector::binary(BVOperator::Divu, seven, zero), BitVector::ones());
    assert_eq!(BitVector::binary(BVOperator::Remu, seven, zero), seven);
    assert_eq!(BitVector::binary(BVOperator::Divu, seven, BitVector(2)), BitVector(3));
    assert_eq!(BitVector::binary(BVOperator::Remu, seven, BitVector(2)), BitVector(1));
    assert_eq!(BitVector::ones(), BitVector(u64::MAX));
}

#[test]
fn comparisons_give_one_or_zero() {
    let a = BitVector(3);
    let b = BitVector(u64::MAX);
    assert_eq!(BitVector::binary(BVOperator::Sltu, a, b), BitVector(1));
    assert_eq!(BitVector::binary(BVOperator::Sltu, b, a), BitVector(0));
    assert_eq!(BitVector::binary(BVOperator::Sltu, a, a), BitVector(0));
    assert_eq!(BitVector::binary(BVOperator::Equals, a, a), BitVector(1));
    assert_eq!(BitVector::binary(BVOperator::Equals, a, b), BitVector(0));
    assert_eq!(BitVector::unary(BVOperator::Not, BitVector(0)), BitVector(1));
    assert_eq!(BitVector::unary(BVOperator::Not, BitVector(1)), BitVector(0));
    assert_eq!(BitVector::unary(BVOperator::Not, b), BitVector(0));
    assert_eq!(BitVector::binary(BVOperator::BitwiseAnd, BitVector(0b1100), BitVector(0b1010)), BitVector(0b1000));
}

#[test]
fn bit_vectors_are_ordered_as_unsigned_numbers() {
    assert!(BitVector(0) < BitVector(1));
    assert!(BitVector(1) < BitVector(u64::MAX));
    assert!(BitVector(1 << 63) > BitVector((1 << 63) - 1));
    assert!(BitVector(7) <= BitVector(7) && BitVector(7) >= BitVector(7));
    assert_eq!(BitVector(3).max(BitVector(9)), BitVector(9));
    let mut values = vec![BitVector(5), BitVector(u64::MAX), BitVector(0), BitVector(5)];
    values.sort();
    assert_eq!(values, vec![BitVector(0), BitVector(5), BitVector(5), BitVector(u64::MAX)]);
}

#[test]
fn numbers_are_written_in_decimal() {
    assert_eq!(decimal(0), "0");
    assert_eq!(decimal(7), "7");
    assert_eq!(decimal(10), "10");
    assert_eq!(decimal(42), "42");
    assert_eq!(decimal(1_048_576), "1048576");
    assert_eq!(decimal(u64::MAX), "18446744073709551615");
    for n in [0_u64, 9, 99, 100, 12345, 1 << 40, u64::MAX - 1] {
        assert_eq!(decimal(n), n.to_string());
        assert_eq!(decimal(n).parse::<u64>(), Ok(n));
    }
    let mut out = String::from("bv");
    push_decimal(&mut out, 64);
    assert_eq!(out, "bv64");
}

#[test]
fn text_is_compared_by_its_characters() {
    assert!(text_eq("", ""));
    assert!(text_eq("coin-flip", "coin-flip"));
    assert!(!text_eq("coin-flip", "coin-flop"));
    assert!(!text_eq("coin", "coin-flip"));
    assert!(text_eq("gr\u{fc}\u{df}e", "gr\u{fc}\u{df}e"));
    assert!(!text_eq("gr\u{fc}\u{df}e", "gruesse"));
}
