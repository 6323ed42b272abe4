//! The order in which symbolic execution takes up the paths that wait.

use std::collections::HashMap;
use vstd::prelude::*;
use vstd::std_specs::hash::*;
use crate::cli::{no_variant, no_variant_complaint, Readable};
use crate::text::text_eq;

verus! {

broadcast use vstd::std_specs::hash::group_hash_axioms;

/// The strategies there are to choose from.
#[derive(Clone, Copy, Debug, PartialEq, Eq, Structural)]
pub enum ExplorationStrategyType {
    ShortestPaths,
    CoinFlip,
}

impl ExplorationStrategyType {
    /// The name of a strategy on the command line.
    pub open spec fn name_of(self) -> Seq<char> {
        match self {
            ExplorationStrategyType::ShortestPaths => "shortest-paths"@,
            ExplorationStrategyType::CoinFlip => "coin-flip"@,
        }
    }

    pub fn name(&self) -> (r: &'static str)
        ensures
            r@ == self.name_of(),
    {
        match self {
            ExplorationStrategyType::ShortestPaths => "shortest-paths",
            ExplorationStrategyType::CoinFlip => "coin-flip",
        }
    }

    /// The strategy that `text` names, if it names one.
    pub fn from_name(text: &str) -> (r: Option<ExplorationStrategyType>)
        ensures
            r matches Some(strategy) ==> strategy.name_of() == text@,
            r is None ==> forall|strategy: ExplorationStrategyType| strategy.name_of() != text@,
    {
        if text_eq(text, "shortest-paths") {
            Some(ExplorationStrategyType::ShortestPaths)
        } else if text_eq(text, "coin-flip") {
            Some(ExplorationStrategyType::CoinFlip)
        } else {
            None
        }
    }

    /// The names of all strategies.
    pub fn variants() -> (r: Vec<&'static str>)
        ensures
            r@.len() == 2,
            r@[0]@ == ExplorationStrategyType::ShortestPaths.name_of(),
            r@[1]@ == ExplorationStrategyType::CoinFlip.name_of(),
    {
        let mut names: Vec<&'static str> = Vec::new();
        names.push(ExplorationStrategyType::ShortestPaths.name());
        names.push(ExplorationStrategyType::CoinFlip.name());
        names
    }

    /// No two strategies share a name.
    pub proof fn lemma_names_distinct(a: ExplorationStrategyType, b: ExplorationStrategyType)
        requires
            a.name_of() == b.name_of(),
        ensures
            a == b,
    {
        reveal_strlit("shortest-paths");
        reveal_strlit("coin-flip");
        assert("shortest-paths"@[0] == 's' && "coin-flip"@[0] == 'c');
    }
}

impl Readable for ExplorationStrategyType {
    open spec fn read_spec(text: Seq<char>) -> Option<ExplorationStrategyType> {
        if text == ExplorationStrategyType::ShortestPaths.name_of() {
            Some(ExplorationStrategyType::ShortestPaths)
        } else if text == ExplorationStrategyType::CoinFlip.name_of() {
            Some(ExplorationStrategyType::CoinFlip)
        } else {
            None
        }
    }

    open spec fn complaint_spec(text: Seq<char>) -> Seq<char> {
        no_variant_complaint()
    }

    fn read(text: &str) -> (r: Result<ExplorationStrategyType, String>) {
        match ExplorationStrategyType::from_name(text) {
            Some(strategy) => {
                proof {
                    let found = ExplorationStrategyType::read_spec(text@);
                    assert(found is Some);
                    ExplorationStrategyType::lemma_names_distinct(found->0, strategy);
                }
                Ok(strategy)
            },
            None => {
                assert(ExplorationStrategyType::ShortestPaths.name_of() != text@ && ExplorationStrategyType::CoinFlip.name_of() != text@);
                Err(no_variant())
            },
        }
    }
}

/// What the strategies are told of a path that waits to be run on.
#[derive(Clone, Copy, Debug, PartialEq, Eq, Structural)]
pub struct PathState {
    /// The place of the path in the order in which the paths were created.
    pub id: u64,
    /// The address of the instruction that the path executes next.
    pub pc: u64,
    /// The number of instructions that the path has executed.
    pub depth: u64,
}

/// The distance from the instruction at `pc` to the nearest exit of the
/// program. An instruction that the table does not hold is as far from an
/// exit as can be.
pub open spec fn distance_of(distances: Map<u64, u64>, pc: u64) -> u64 {
    if distances.contains_key(pc) {
        distances[pc]
    } else {
        u64::MAX
    }
}

/// Whether the path `a` is to be run on before the path `b`, or is `b`: it is
/// nearer to an exit, or as near and created no later.
pub open spec fn goes_first(distances: Map<u64, u64>, a: PathState, b: PathState) -> bool {
    distance_of(distances, a.pc) < distance_of(distances, b.pc) || (distance_of(distances, a.pc)
        == distance_of(distances, b.pc) && a.id <= b.id)
}

/// Whether the path at place `at` is the one to run on next: none goes before
/// it, and those before it in the frontier come strictly after it.
pub open spec fn is_nearest(distances: Map<u64, u64>, frontier: Seq<PathState>, at: int) -> bool {
    &&& 0 <= at < frontier.len()
    &&& forall|j: int| 0 <= j < frontier.len() ==> goes_first(distances, frontier[at], frontier[j])
    &&& forall|j: int| 0 <= j < at ==> !goes_first(distances, frontier[j], frontier[at])
}

/// A way to say which of the paths that wait is run on next.
pub trait ExplorationStrategy {
    /// The place in the frontier of the path to run on next; none where no
    /// path waits.
    fn choose_path(&mut self, frontier: &Vec<PathState>) -> (r: Option<usize>)
        ensures
            r is None <==> frontier@.len() == 0,
            r matches Some(at) ==> at < frontier@.len(),
    ;
}

/// The strategy that runs on with the path that is nearest to an exit of the
/// program, and among those that are equally near with the one that was
/// created first.
pub struct ShortestPaths {
    distances: HashMap<u64, u64>,
}

impl View for ShortestPaths {
    type V = Map<u64, u64>;

    closed spec fn view(&self) -> Map<u64, u64> {
        self.distances@
    }
}

impl ShortestPaths {
    /// The strategy for a table that gives, for the address of an
    /// instruction, the number of basic blocks from there to the nearest exit.
    pub fn new(distances: HashMap<u64, u64>) -> (r: ShortestPaths)
        ensures
            r@ == distances@,
    {
        ShortestPaths { distances }
    }

    /// The distance from the instruction at `pc` to the nearest exit.
    pub fn distance(&self, pc: u64) -> (r: u64)
        ensures
            r == distance_of(self@, pc),
    {
        match self.distances.get(&pc) {
            Some(distance) => *distance,
            None => u64::MAX,
        }
    }

    /// The place in the frontier of the path to run on next.
    pub fn nearest(&self, frontier: &Vec<PathState>) -> (r: Option<usize>)
        ensures
            r is None <==> frontier@.len() == 0,
            r matches Some(at) ==> is_nearest(self@, frontier@, at as int),
    {
        if frontier.len() == 0 {
            return None;
        }
        let mut best: usize = 0;
        let mut best_distance = self.distance(frontier[0].pc);
        let mut i: usize = 1;
        while i < frontier.len()
            invariant
                1 <= i <= frontier.len(),
                best < i,
                best_distance == distance_of(self@, frontier@[best as int].pc),
                forall|j: int| 0 <= j < i ==> goes_first(self@, frontier@[best as int], frontier@[j]),
                forall|j: int|
                    0 <= j < best ==> !goes_first(self@, frontier@[j], frontier@[best as int]),
            decreases frontier.len() - i,
        {
            let distance = self.distance(frontier[i].pc);
            if distance < best_distance || (distance == best_distance && frontier[i].id
                < frontier[best].id) {
                best = i;
                best_distance = distance;
            }
            i += 1;
        }
        Some(best)
    }
}

impl ExplorationStrategy for ShortestPaths {
    fn choose_path(&mut self, frontier: &Vec<PathState>) -> (r: Option<usize>)
        ensures
            final(self)@ == old(self)@,
            r matches Some(at) ==> is_nearest(old(self)@, frontier@, at as int),
    {
        self.nearest(frontier)
    }
}

/// The random number that follows `state`: the next state of a generator that
/// shifts and mixes its sixty-four bits.
pub open spec fn next_random(state: u64) -> u64 {
    let a = state ^ (state << 13);
    let b = a ^ (a >> 7);
    b ^ (b << 17)
}

/// What a generator starts from where it is given `seed`: the seed, or a
/// number other than zero in its place.
pub open spec fn seeded(seed: u64) -> u64 {
    if seed == 0 {
        0x9E37_79B9_7F4A_7C15
    } else {
        seed
    }
}

/// The strategy that runs on with a path picked at random. The random numbers
/// follow from the seed, so that a run can be had again.
pub struct CoinFlip {
    state: u64,
}

impl View for CoinFlip {
    type V = u64;

    closed spec fn view(&self) -> u64 {
        self.state
    }
}

impl CoinFlip {
    /// The strategy for a seed.
    pub fn new(seed: u64) -> (r: CoinFlip)
        ensures
            r@ == seeded(seed),
    {
        CoinFlip {
            state: if seed == 0 {
                0x9E37_79B9_7F4A_7C15
            } else {
                seed
            },
        }
    }

    /// The next random number.
    pub fn next(&mut self) -> (r: u64)
        ensures
            r == next_random(old(self)@),
            final(self)@ == r,
    {
        let a = self.state ^ (self.state << 13);
        let b = a ^ (a >> 7);
        let c = b ^ (b << 17);
        self.state = c;
        c
    }
}

impl ExplorationStrategy for CoinFlip {
    fn choose_path(&mut self, frontier: &Vec<PathState>) -> (r: Option<usize>)
        ensures
            frontier@.len() == 0 ==> final(self)@ == old(self)@,
            frontier@.len() > 0 ==> final(self)@ == next_random(old(self)@) && r == Some(
                (next_random(old(self)@) as int % frontier@.len() as int) as usize,
            ),
    {
        if frontier.len() == 0 {
            None
        } else {
            let random = self.next();
            coin_flip_choice(frontier.len(), random)
        }
    }
}

/// The place in a frontier of `len` paths that the strategy of the coin picks
/// where the generator of random numbers gave `random`.
pub fn coin_flip_choice(len: usize, random: u64) -> (r: Option<usize>)
    ensures
        r is None <==> len == 0,
        r matches Some(at) ==> at == random as int % len as int,
{
    if len == 0 {
        None
    } else {
        Some((random % (len as u64)) as usize)
    }
}

/// Two places of one frontier that are both the one to run on next are one
/// place.
pub proof fn lemma_nearest_is_one(
    distances: Map<u64, u64>,
    frontier: Seq<PathState>,
    a: int,
    b: int,
)
    requires
        is_nearest(distances, frontier, a),
        is_nearest(distances, frontier, b),
    ensures
        a == b,
{
    assert(goes_first(distances, frontier[a], frontier[b]));
    assert(goes_first(distances, frontier[b], frontier[a]));
}

/// Of two paths that are equally near to an exit, the one created first is run
/// on first.
pub proof fn lemma_ties_go_by_creation(
    distances: Map<u64, u64>,
    frontier: Seq<PathState>,
    at: int,
    other: int,
)
    requires
        is_nearest(distances, frontier, at),
        0 <= other < frontier.len(),
        distance_of(distances, frontier[other].pc) == distance_of(distances, frontier[at].pc),
    ensures
        frontier[at].id <= frontier[other].id,
{
    assert(goes_first(distances, frontier[at], frontier[other]));
}

} // verus!
