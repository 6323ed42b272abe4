//! Symbolic execution: every path of the program, as far as the solver finds
//! it feasible and the budget of instructions reaches.
//!
//! The driver keeps the paths that wait and decides what becomes of a path
//! after each instruction. Running the instruction is the work of whoever
//! drives the driver.

use vstd::prelude::*;
use crate::cli::{MAX_MEMORY_SIZE, MIN_MEMORY_SIZE};
use crate::engine::{ConfigError, GuestTrap};
use crate::path_exploration::{ExplorationStrategy, ExplorationStrategyType, PathState};
use crate::solver::{Assignment, SolverError, SolverType};

pub mod branch;
pub mod defaults;

verus! {

/// What symbolic execution is run with.
#[derive(Clone, Copy, Debug, PartialEq, Eq, Structural)]
pub struct SymbolicExecutionOptions {
    /// The number of instructions after which a path is given up.
    pub max_execution_depth: u64,
    /// The mebibytes of memory of each path.
    pub memory_size: u64,
    /// The backend that is asked about the branches.
    pub solver: SolverType,
    /// The order in which the paths are taken up.
    pub strategy: ExplorationStrategyType,
    /// The number of instructions that all paths together may execute.
    pub step_budget: u64,
}

impl Default for SymbolicExecutionOptions {
    fn default() -> (r: SymbolicExecutionOptions)
        ensures
            r == (SymbolicExecutionOptions {
                max_execution_depth: defaults::MAX_EXECUTION_DEPTH,
                memory_size: (defaults::MEMORY_SIZE / defaults::MIB) as u64,
                solver: SolverType::Monster,
                strategy: ExplorationStrategyType::ShortestPaths,
                step_budget: defaults::STEP_BUDGET,
            }),
    {
        SymbolicExecutionOptions {
            max_execution_depth: defaults::MAX_EXECUTION_DEPTH,
            memory_size: defaults::MEMORY_SIZE / defaults::MIB,
            solver: SolverType::Monster,
            strategy: ExplorationStrategyType::ShortestPaths,
            step_budget: defaults::STEP_BUDGET,
        }
    }
}

/// What the solver said of one side of a branch.
#[derive(Clone, Copy, Debug, PartialEq, Eq, Structural)]
pub enum Feasibility {
    /// The side can be taken.
    Sat,
    /// The side cannot be taken.
    Unsat,
    /// The solver did not say.
    Unknown(SolverError),
}

/// What happened when a path executed one instruction.
#[derive(Clone, Copy, Debug, PartialEq, Eq, Structural)]
pub enum StepOutcome {
    /// The path goes on at `pc`.
    Advanced { pc: u64 },
    /// The instruction was a branch on a symbolic condition. One side goes on
    /// at `taken`, the other at `fallthrough`, and the solver was asked about
    /// the path condition of each.
    Branched { taken: u64, taken_answer: Feasibility, fallthrough: u64, fallthrough_answer: Feasibility },
    /// The program ended; `bug` says whether its end witnesses a bug.
    Exited { bug: bool },
    /// The program cannot go on.
    Trapped { trap: GuestTrap },
    /// The instruction is none that is known.
    Undecodable,
}

/// What the driver reports of a path: where it stopped and why.
#[derive(Clone, Copy, Debug, PartialEq, Eq, Structural)]
pub enum Finding {
    /// The path executed as many instructions as a path may.
    DepthReached { path: u64, pc: u64 },
    /// The program could not go on.
    Trapped { path: u64, pc: u64, trap: GuestTrap },
    /// The program ended in a way that witnesses a bug.
    ExitedWithBug { path: u64, pc: u64 },
}

/// What the driver notes without stopping.
#[derive(Clone, Copy, Debug, PartialEq, Eq, Structural)]
pub enum Warning {
    /// A side of a branch was dropped because the solver did not say whether
    /// it can be taken.
    Unknown { path: u64, error: SolverError },
    /// A path was dropped at an instruction that is none that is known.
    Undecodable { path: u64, pc: u64 },
}

/// What an answer of a solver says of a side of a branch.
pub fn feasibility(answer: &Result<Option<Assignment>, SolverError>) -> (r: Feasibility)
    ensures
        r == match answer {
            Ok(Some(_)) => Feasibility::Sat,
            Ok(None) => Feasibility::Unsat,
            Err(error) => Feasibility::Unknown(*error),
        },
{
    match answer {
        Ok(Some(_)) => Feasibility::Sat,
        Ok(None) => Feasibility::Unsat,
        Err(error) => Feasibility::Unknown(*error),
    }
}

/// The error with which an answer says that what the solver wrote or read
/// did not get through, if it says so. Such an error ends the run; the other
/// errors leave a side of a branch open and are noted.
pub open spec fn transport_error(answer: Feasibility) -> Option<SolverError> {
    match answer {
        Feasibility::Unknown(error) => if error == SolverError::IoError {
            Some(error)
        } else {
            None
        },
        _ => None,
    }
}

/// The error with which the outcome of an instruction ends the run, if it
/// does: that of the side that is taken before that of the other side.
pub open spec fn failure_of(outcome: StepOutcome) -> Option<SolverError> {
    match outcome {
        StepOutcome::Branched { taken, taken_answer, fallthrough, fallthrough_answer } => {
            match transport_error(taken_answer) {
                Some(error) => Some(error),
                None => transport_error(fallthrough_answer),
            }
        },
        _ => None,
    }
}

/// What is noted of an answer for a side of a branch of the path `path`.
pub open spec fn noted_of(path: PathState, answer: Feasibility) -> Seq<Warning> {
    match answer {
        Feasibility::Unknown(error) => if error == SolverError::IoError {
            Seq::empty()
        } else {
            seq![Warning::Unknown { path: path.id, error }]
        },
        _ => Seq::empty(),
    }
}

/// The instructions that the paths of `frontier` may still execute where a
/// path may execute `max` of them.
pub open spec fn remaining(max: u64, frontier: Seq<PathState>) -> nat
    decreases frontier.len(),
{
    if frontier.len() == 0 {
        0
    } else {
        remaining(max, frontier.drop_last()) + left(max, frontier.last())
    }
}

/// The instructions that a path may still execute.
pub open spec fn left(max: u64, path: PathState) -> nat {
    if path.depth <= max {
        (max - path.depth) as nat
    } else {
        0
    }
}

/// The state of a driver, as a plain value.
pub struct DriverView {
    pub max_execution_depth: u64,
    pub step_budget: u64,
    /// The number of paths that the driver started with.
    pub initial_states: nat,
    /// The paths that wait.
    pub frontier: Seq<PathState>,
    /// The path that is run on.
    pub current: Option<PathState>,
    /// The number of paths created so far.
    pub created: nat,
    /// The number of branches on a symbolic condition so far.
    pub branches: nat,
    /// The number of instructions executed so far, all paths together.
    pub steps: nat,
    pub findings: Seq<Finding>,
    pub warnings: Seq<Warning>,
    /// The error that ended the run, if one did.
    pub failure: Option<SolverError>,
}

impl DriverView {
    /// Whether `path` can be run on: it has instructions left and is one of
    /// the paths created.
    pub open spec fn runnable(self, path: PathState) -> bool {
        path.depth < self.max_execution_depth && path.id < self.created
    }

    /// The paths that wait and the one that is run on, if one is.
    pub open spec fn alive(self) -> Seq<PathState> {
        match self.current {
            Some(path) => self.frontier.push(path),
            None => self.frontier,
        }
    }

    /// What holds of a driver at all times.
    pub open spec fn wf(self) -> bool {
        &&& 1 <= self.max_execution_depth
        &&& self.initial_states + self.step_budget <= u64::MAX
        &&& self.branches <= self.steps <= self.step_budget
        &&& self.created <= self.initial_states + self.branches
        &&& self.current is Some ==> self.steps < self.step_budget
        &&& self.alive().len() <= self.created
        &&& forall|i: int| 0 <= i < self.alive().len() ==> self.runnable(#[trigger] self.alive()[i])
        &&& forall|i: int, j: int|
            0 <= i < j < self.alive().len() ==> (#[trigger] self.alive()[i]).id
                != (#[trigger] self.alive()[j]).id
        &&& self.steps + remaining(self.max_execution_depth, self.alive())
            <= self.max_execution_depth * self.created
    }

    /// The state after the path `path` has been taken from place `at` of the
    /// frontier to be run on.
    pub open spec fn selected(self, at: int) -> DriverView {
        DriverView {
            frontier: self.frontier.remove(at),
            current: Some(self.frontier[at]),
            ..self
        }
    }

    /// The paths that go on after an instruction of the path `path` with the
    /// outcome `outcome`, where paths have instructions left after it. None go
    /// on where the outcome ends the run.
    pub open spec fn successors(self, path: PathState, outcome: StepOutcome) -> Seq<PathState> {
        let depth = (path.depth + 1) as u64;
        match outcome {
            StepOutcome::Advanced { pc } => seq![PathState { id: path.id, pc, depth }],
            StepOutcome::Branched { taken, taken_answer, fallthrough, fallthrough_answer } => {
                if failure_of(outcome) is Some {
                    Seq::empty()
                } else if taken_answer == Feasibility::Sat && fallthrough_answer == Feasibility::Sat {
                    seq![
                        PathState { id: path.id, pc: taken, depth },
                        PathState { id: self.created as u64, pc: fallthrough, depth },
                    ]
                } else if taken_answer == Feasibility::Sat {
                    seq![PathState { id: path.id, pc: taken, depth }]
                } else if fallthrough_answer == Feasibility::Sat {
                    seq![PathState { id: path.id, pc: fallthrough, depth }]
                } else {
                    Seq::empty()
                }
            },
            _ => Seq::empty(),
        }
    }

    /// What is reported after an instruction of the path `path` with the
    /// outcome `outcome`.
    pub open spec fn reported(self, path: PathState, outcome: StepOutcome) -> Seq<Finding> {
        match outcome {
            StepOutcome::Exited { bug } => if bug {
                seq![Finding::ExitedWithBug { path: path.id, pc: path.pc }]
            } else {
                Seq::empty()
            },
            StepOutcome::Trapped { trap } => seq![
                Finding::Trapped { path: path.id, pc: path.pc, trap },
            ],
            StepOutcome::Undecodable => Seq::empty(),
            _ => {
                let successors = self.successors(path, outcome);
                if successors.len() > 0 && path.depth + 1 == self.max_execution_depth {
                    seq![Finding::DepthReached { path: path.id, pc: successors[0].pc }]
                } else {
                    Seq::empty()
                }
            },
        }
    }

    /// What is noted after an instruction of the path `path` with the outcome
    /// `outcome`.
    pub open spec fn noted(self, path: PathState, outcome: StepOutcome) -> Seq<Warning> {
        match outcome {
            StepOutcome::Branched { taken, taken_answer, fallthrough, fallthrough_answer } => {
                noted_of(path, taken_answer) + noted_of(path, fallthrough_answer)
            },
            StepOutcome::Undecodable => seq![Warning::Undecodable { path: path.id, pc: path.pc }],
            _ => Seq::empty(),
        }
    }

    /// The state after the path that is run on has executed one instruction
    /// with the outcome `outcome`. The paths that go on wait again, unless they
    /// have no instructions left. A branch both of whose sides can be taken
    /// makes one new path. A branch for which what the solver wrote or read
    /// did not get through ends the run: the error is kept and no path goes
    /// on from the branch.
    pub open spec fn stepped(self, path: PathState, outcome: StepOutcome) -> DriverView {
        let successors = self.successors(path, outcome);
        let at_bound = path.depth + 1 == self.max_execution_depth;
        DriverView {
            frontier: if at_bound {
                self.frontier
            } else {
                self.frontier + successors
            },
            current: None,
            created: if !at_bound && successors.len() == 2 {
                self.created + 1
            } else {
                self.created
            },
            branches: if outcome is Branched {
                self.branches + 1
            } else {
                self.branches
            },
            steps: self.steps + 1,
            findings: self.findings + self.reported(path, outcome),
            warnings: self.warnings + self.noted(path, outcome),
            failure: match self.failure {
                Some(error) => Some(error),
                None => failure_of(outcome),
            },
            ..self
        }
    }
}

/// Putting a path at the end of a frontier adds what the path may still
/// execute.
pub proof fn lemma_remaining_push(max: u64, frontier: Seq<PathState>, path: PathState)
    ensures
        remaining(max, frontier.push(path)) == remaining(max, frontier) + left(max, path),
{
    assert(frontier.push(path).drop_last() =~= frontier);
}

/// Taking a path out of a frontier takes away what the path may still
/// execute.
pub proof fn lemma_remaining_remove(max: u64, frontier: Seq<PathState>, at: int)
    requires
        0 <= at < frontier.len(),
    ensures
        remaining(max, frontier.remove(at)) + left(max, frontier[at]) == remaining(max, frontier),
    decreases frontier.len(),
{
    if at == frontier.len() - 1 {
        assert(frontier.remove(at) =~= frontier.drop_last());
    } else {
        lemma_remaining_remove(max, frontier.drop_last(), at);
        assert(frontier.remove(at).drop_last() =~= frontier.drop_last().remove(at));
        assert(frontier.remove(at).last() == frontier.last());
    }
}

/// The paths that wait are never more than the paths that the driver started
/// with and the branches together, and the instructions executed are never
/// more than all the paths created may execute. Where no branch has made a
/// path, the instructions executed are no more than what the paths that the
/// driver started with may execute, and the branches.
pub proof fn lemma_driver_bounds(driver: DriverView)
    requires
        driver.wf(),
    ensures
        driver.frontier.len() <= driver.initial_states + driver.branches,
        driver.created <= driver.initial_states + driver.branches,
        driver.steps <= driver.max_execution_depth * driver.created,
        driver.steps <= driver.max_execution_depth * (driver.initial_states + driver.branches),
        driver.created == driver.initial_states ==> driver.steps <= driver.max_execution_depth
            * driver.initial_states + driver.branches,
{
    let max = driver.max_execution_depth as int;
    let created = driver.created as int;
    let bound = (driver.initial_states + driver.branches) as int;
    assert(max * created <= max * bound) by (nonlinear_arith)
        requires
            0 <= max,
            created <= bound,
    ;
    assert(driver.frontier.len() <= driver.alive().len());
}

/// What is wrong with running `paths` paths with `options`, if anything is.
pub open spec fn config_error(options: SymbolicExecutionOptions, paths: nat) -> Option<
    ConfigError,
> {
    if options.max_execution_depth == 0 {
        Some(ConfigError::ExecutionDepth)
    } else if !(MIN_MEMORY_SIZE <= options.memory_size <= MAX_MEMORY_SIZE) {
        Some(ConfigError::MemorySize)
    } else if paths + options.step_budget > u64::MAX {
        Some(ConfigError::StepBudget)
    } else {
        None
    }
}

/// The paths that a driver starts with: one for each address of `entries`,
/// created in the order of the addresses, with no instruction executed.
pub open spec fn initial_frontier(entries: Seq<u64>) -> Seq<PathState> {
    Seq::new(entries.len(), |i: int| PathState { id: i as u64, pc: entries[i], depth: 0 })
}

/// The driver of symbolic execution.
pub struct Driver {
    max_execution_depth: u64,
    step_budget: u64,
    initial_states: u64,
    frontier: Vec<PathState>,
    current: Option<PathState>,
    created: u64,
    branches: u64,
    steps: u64,
    findings: Vec<Finding>,
    warnings: Vec<Warning>,
    failure: Option<SolverError>,
}

impl View for Driver {
    type V = DriverView;

    closed spec fn view(&self) -> DriverView {
        DriverView {
            max_execution_depth: self.max_execution_depth,
            step_budget: self.step_budget,
            initial_states: self.initial_states as nat,
            frontier: self.frontier@,
            current: self.current,
            created: self.created as nat,
            branches: self.branches as nat,
            steps: self.steps as nat,
            findings: self.findings@,
            warnings: self.warnings@,
            failure: self.failure,
        }
    }
}

impl Driver {
    /// A driver with one path for each address of `entries`, or what is wrong
    /// with the options.
    pub fn new(options: SymbolicExecutionOptions, entries: &Vec<u64>) -> (r: Result<
        Driver,
        ConfigError,
    >)
        ensures
            match config_error(options, entries@.len()) {
                Some(error) => r == Err::<Driver, ConfigError>(error),
                None => r matches Ok(driver) && driver@.wf() && driver@ == (DriverView {
                    max_execution_depth: options.max_execution_depth,
                    step_budget: options.step_budget,
                    initial_states: entries@.len(),
                    frontier: initial_frontier(entries@),
                    current: None,
                    created: entries@.len(),
                    branches: 0,
                    steps: 0,
                    findings: Seq::empty(),
                    warnings: Seq::empty(),
                    failure: None,
                }),
            },
    {
        if options.max_execution_depth == 0 {
            return Err(ConfigError::ExecutionDepth);
        }
        if options.memory_size < MIN_MEMORY_SIZE || options.memory_size > MAX_MEMORY_SIZE {
            return Err(ConfigError::MemorySize);
        }
        let paths = entries.len() as u64;
        if paths > u64::MAX - options.step_budget {
            return Err(ConfigError::StepBudget);
        }
        let max = options.max_execution_depth;
        let mut frontier: Vec<PathState> = Vec::new();
        let mut i: usize = 0;
        while i < entries.len()
            invariant
                i <= entries.len(),
                frontier@ == initial_frontier(entries@).take(i as int),
                remaining(max, frontier@) == max * i,
            decreases entries.len() - i,
        {
            let path = PathState { id: i as u64, pc: entries[i], depth: 0 };
            proof {
                lemma_remaining_push(max, frontier@, path);
                assert(max * (i + 1) == max * i + max) by (nonlinear_arith);
                assert(frontier@.push(path) =~= initial_frontier(entries@).take(i + 1));
            }
            frontier.push(path);
            i += 1;
        }
        assert(frontier@ =~= initial_frontier(entries@));
        let driver = Driver {
            max_execution_depth: max,
            step_budget: options.step_budget,
            initial_states: paths,
            frontier,
            current: None,
            created: paths,
            branches: 0,
            steps: 0,
            findings: Vec::new(),
            warnings: Vec::new(),
            failure: None,
        };
        Ok(driver)
    }

    /// The paths that wait.
    pub fn frontier(&self) -> (r: &Vec<PathState>)
        ensures
            r@ == self@.frontier,
    {
        &self.frontier
    }

    /// The path that is run on.
    pub fn current(&self) -> (r: Option<PathState>)
        ensures
            r == self@.current,
    {
        self.current
    }

    /// What has been reported.
    pub fn findings(&self) -> (r: &Vec<Finding>)
        ensures
            r@ == self@.findings,
    {
        &self.findings
    }

    /// What has been noted.
    pub fn warnings(&self) -> (r: &Vec<Warning>)
        ensures
            r@ == self@.warnings,
    {
        &self.warnings
    }

    /// The error that ended the run, if one did.
    pub fn failure(&self) -> (r: Option<SolverError>)
        ensures
            r == self@.failure,
    {
        self.failure
    }

    /// The number of instructions executed, all paths together.
    pub fn steps(&self) -> (r: u64)
        ensures
            r == self@.steps,
    {
        self.steps
    }

    /// The number of branches on a symbolic condition.
    pub fn branches(&self) -> (r: u64)
        ensures
            r == self@.branches,
    {
        self.branches
    }

    /// The number of paths created.
    pub fn created(&self) -> (r: u64)
        ensures
            r == self@.created,
    {
        self.created
    }

    /// Whether there is nothing left to do: no path waits or is run on, the
    /// budget of instructions is spent, or an error has ended the run.
    pub fn is_done(&self) -> (r: bool)
        ensures
            r == (self@.alive().len() == 0 || self@.steps >= self@.step_budget || self@.failure
                is Some),
    {
        (self.frontier.len() == 0 && self.current.is_none()) || self.steps >= self.step_budget
            || self.failure.is_some()
    }

    /// Takes the path at place `at` of the frontier to be run on. Nothing is
    /// taken where a path is run on already, where there is no such place,
    /// where the budget of instructions is spent, or where an error has ended
    /// the run.
    pub fn select(&mut self, at: usize) -> (r: Option<PathState>)
        requires
            old(self)@.wf(),
        ensures
            final(self)@.wf(),
            if old(self)@.current is None && at < old(self)@.frontier.len() && old(self)@.steps
                < old(self)@.step_budget && old(self)@.failure is None {
                r == Some(old(self)@.frontier[at as int]) && final(self)@ == old(self)@.selected(
                    at as int,
                )
            } else {
                r is None && final(self)@ == old(self)@
            },
    {
        if self.current.is_some() || at >= self.frontier.len() || self.steps >= self.step_budget
            || self.failure.is_some() {
            return None;
        }
        let ghost before = self@;
        let path = self.frontier.remove(at);
        self.current = Some(path);
        proof {
            let after = self@;
            assert(after == before.selected(at as int));
            lemma_remaining_remove(before.max_execution_depth, before.frontier, at as int);
            lemma_remaining_push(before.max_execution_depth, after.frontier, path);
            assert forall|i: int| 0 <= i < after.alive().len() implies after.runnable(
                #[trigger] after.alive()[i],
            ) by {
                let k = if i < at {
                    i
                } else if i < after.alive().len() - 1 {
                    i + 1
                } else {
                    at as int
                };
                assert(before.runnable(before.alive()[k]));
            }
            assert forall|i: int, j: int| 0 <= i < j < after.alive().len() implies (
            #[trigger] after.alive()[i]).id != (#[trigger] after.alive()[j]).id by {
                let ki = if i < at {
                    i
                } else {
                    i + 1
                };
                let kj = if j < at {
                    j
                } else if j < after.alive().len() - 1 {
                    j + 1
                } else {
                    at as int
                };
                assert(before.alive()[ki] == after.alive()[i]);
                assert(before.alive()[kj] == after.alive()[j]);
                if ki < kj {
                    assert(before.alive()[ki].id != before.alive()[kj].id);
                } else {
                    assert(before.alive()[kj].id != before.alive()[ki].id);
                }
            }
        }
        Some(path)
    }

    /// Takes the path that `strategy` picks among those that wait to be run
    /// on. Nothing is taken where a path is run on already, where no path
    /// waits, where the budget of instructions is spent, or where an error has
    /// ended the run.
    pub fn select_with<S: ExplorationStrategy>(&mut self, strategy: &mut S) -> (r: Option<
        PathState,
    >)
        requires
            old(self)@.wf(),
        ensures
            final(self)@.wf(),
            r is Some <==> old(self)@.current is None && old(self)@.frontier.len() > 0 && old(
                self,
            )@.steps < old(self)@.step_budget && old(self)@.failure is None,
            r matches Some(path) ==> exists|at: int|
                0 <= at < old(self)@.frontier.len() && path == old(self)@.frontier[at]
                    && final(self)@ == #[trigger] old(self)@.selected(at),
            r is None ==> final(self)@ == old(self)@,
    {
        if self.current.is_some() || self.steps >= self.step_budget || self.failure.is_some() {
            return None;
        }
        match strategy.choose_path(&self.frontier) {
            Some(at) => {
                let taken = self.select(at);
                assert(self@ == old(self)@.selected(at as int));
                taken
            },
            None => None,
        }
    }

    /// Takes note that the path that is run on has executed one instruction
    /// with the outcome `outcome`, and says whether a path was run on.
    pub fn step(&mut self, outcome: StepOutcome) -> (r: bool)
        requires
            old(self)@.wf(),
        ensures
            final(self)@.wf(),
            match old(self)@.current {
                Some(path) => r && final(self)@ == old(self)@.stepped(path, outcome),
                None => !r && final(self)@ == old(self)@,
            },
    {
        let path = match self.current {
            Some(path) => path,
            None => {
                return false;
            },
        };
        let ghost before = self@;
        let ghost max = before.max_execution_depth;
        proof {
            assert(before.alive()[before.frontier.len() as int] == path);
            assert(before.runnable(before.alive()[before.frontier.len() as int]));
            lemma_remaining_push(max, before.frontier, path);
        }
        let depth = path.depth + 1;
        let at_bound = depth == self.max_execution_depth;
        self.current = None;
        self.steps = self.steps + 1;
        let mut first: Option<PathState> = None;
        let mut second: Option<PathState> = None;
        match outcome {
            StepOutcome::Advanced { pc } => {
                first = Some(PathState { id: path.id, pc, depth });
            },
            StepOutcome::Branched { taken, taken_answer, fallthrough, fallthrough_answer } => {
                self.branches = self.branches + 1;
                let mut lost: Option<SolverError> = None;
                match taken_answer {
                    Feasibility::Unknown(error) => {
                        if error == SolverError::IoError {
                            lost = Some(error);
                        } else {
                            self.warnings.push(Warning::Unknown { path: path.id, error });
                        }
                    },
                    _ => {},
                }
                match fallthrough_answer {
                    Feasibility::Unknown(error) => {
                        if error == SolverError::IoError {
                            if lost.is_none() {
                                lost = Some(error);
                            }
                        } else {
                            self.warnings.push(Warning::Unknown { path: path.id, error });
                        }
                    },
                    _ => {},
                }
                assert(lost == failure_of(outcome));
                if self.failure.is_none() {
                    self.failure = lost;
                }
                let left_side = taken_answer == Feasibility::Sat;
                let right_side = fallthrough_answer == Feasibility::Sat;
                if lost.is_some() {
                } else if left_side && right_side {
                    first = Some(PathState { id: path.id, pc: taken, depth });
                    second = Some(PathState { id: self.created, pc: fallthrough, depth });
                } else if left_side {
                    first = Some(PathState { id: path.id, pc: taken, depth });
                } else if right_side {
                    first = Some(PathState { id: path.id, pc: fallthrough, depth });
                }
            },
            StepOutcome::Exited { bug } => {
                if bug {
                    self.findings.push(Finding::ExitedWithBug { path: path.id, pc: path.pc });
                }
            },
            StepOutcome::Trapped { trap } => {
                self.findings.push(Finding::Trapped { path: path.id, pc: path.pc, trap });
            },
            StepOutcome::Undecodable => {
                self.warnings.push(Warning::Undecodable { path: path.id, pc: path.pc });
            },
        }
        let ghost successors = before.successors(path, outcome);
        assert(successors =~= match (first, second) {
            (Some(a), Some(b)) => seq![a, b],
            (Some(a), None) => seq![a],
            _ => Seq::<PathState>::empty(),
        });
        assert(self@.warnings =~= before.warnings + before.noted(path, outcome));
        match first {
            Some(one) => {
                if at_bound {
                    self.findings.push(Finding::DepthReached { path: path.id, pc: one.pc });
                } else {
                    self.frontier.push(one);
                    proof {
                        lemma_remaining_push(max, before.frontier, one);
                    }
                    match second {
                        Some(other) => {
                            self.frontier.push(other);
                            self.created = self.created + 1;
                            proof {
                                lemma_remaining_push(max, before.frontier.push(one), other);
                                let created = before.created as int;
                                assert(max * (created + 1) == max * created + max)
                                    by (nonlinear_arith);
                            }
                        },
                        None => {},
                    }
                }
            },
            None => {},
        }
        proof {
            let after = self@;
            let expected = before.stepped(path, outcome);
            assert(after.frontier =~= expected.frontier);
            assert(after.findings =~= expected.findings);
            assert(after.warnings =~= expected.warnings);
            assert(after == expected);
            assert forall|i: int| 0 <= i < before.frontier.len() implies before.runnable(
                #[trigger] before.frontier[i],
            ) && before.frontier[i].id != path.id by {
                assert(before.alive()[i] == before.frontier[i]);
                assert(before.runnable(before.alive()[i]));
                assert(before.alive()[i].id != before.alive()[before.frontier.len() as int].id);
            }
            assert forall|i: int, j: int| 0 <= i < j < before.frontier.len() implies (
            #[trigger] before.frontier[i]).id != (#[trigger] before.frontier[j]).id by {
                assert(before.alive()[i].id != before.alive()[j].id);
            }
        }
        true
    }
}

} // verus!