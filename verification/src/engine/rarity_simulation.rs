//! Rarity simulation: many concrete runs of the program, of which those are
//! kept that came into states that few others came into.

use std::collections::HashMap;
use vstd::multiset::Multiset;
use vstd::prelude::*;
use vstd::seq_lib::{lemma_multiset_commutative, to_multiset_build, to_multiset_len};
use vstd::std_specs::hash::*;
use crate::cli::{
    is_unit_ratio, lemma_magnitude_order, magnitude, no_variant, no_variant_complaint,
    ratio_in_range, sign_of, Readable, MAX_MEMORY_SIZE, MIN_MEMORY_SIZE,
};
use crate::engine::ConfigError;
use crate::text::text_eq;

pub mod defaults;

verus! {

broadcast use {vstd::std_specs::hash::group_hash_axioms, vstd::multiset::group_multiset_axioms};

/// The mean by which the counts of the states of a run are made one score.
#[derive(Clone, Copy, Debug, PartialEq, Eq, Structural)]
pub enum MeanType {
    Arithmetic,
    Harmonic,
}

impl MeanType {
    /// The name of a mean on the command line.
    pub open spec fn name_of(self) -> Seq<char> {
        match self {
            MeanType::Arithmetic => "arithmetic"@,
            MeanType::Harmonic => "harmonic"@,
        }
    }

    pub fn name(&self) -> (r: &'static str)
        ensures
            r@ == self.name_of(),
    {
        match self {
            MeanType::Arithmetic => "arithmetic",
            MeanType::Harmonic => "harmonic",
        }
    }

    /// The mean that `text` names, if it names one.
    pub fn from_name(text: &str) -> (r: Option<MeanType>)
        ensures
            r matches Some(mean) ==> mean.name_of() == text@,
            r is None ==> forall|mean: MeanType| mean.name_of() != text@,
    {
        if text_eq(text, "arithmetic") {
            Some(MeanType::Arithmetic)
        } else if text_eq(text, "harmonic") {
            Some(MeanType::Harmonic)
        } else {
            None
        }
    }

    /// The names of all means.
    pub fn variants() -> (r: Vec<&'static str>)
        ensures
            r@.len() == 2,
            r@[0]@ == MeanType::Arithmetic.name_of(),
            r@[1]@ == MeanType::Harmonic.name_of(),
    {
        let mut names: Vec<&'static str> = Vec::new();
        names.push(MeanType::Arithmetic.name());
        names.push(MeanType::Harmonic.name());
        names
    }

    /// No two means share a name.
    pub proof fn lemma_names_distinct(a: MeanType, b: MeanType)
        requires
            a.name_of() == b.name_of(),
        ensures
            a == b,
    {
        reveal_strlit("arithmetic");
        reveal_strlit("harmonic");
        assert("arithmetic"@[0] == 'a' && "harmonic"@[0] == 'h');
    }
}

impl Readable for MeanType {
    open spec fn read_spec(text: Seq<char>) -> Option<MeanType> {
        if text == MeanType::Arithmetic.name_of() {
            Some(MeanType::Arithmetic)
        } else if text == MeanType::Harmonic.name_of() {
            Some(MeanType::Harmonic)
        } else {
            None
        }
    }

    open spec fn complaint_spec(text: Seq<char>) -> Seq<char> {
        no_variant_complaint()
    }

    fn read(text: &str) -> (r: Result<MeanType, String>) {
        match MeanType::from_name(text) {
            Some(mean) => {
                proof {
                    let found = MeanType::read_spec(text@);
                    assert(found is Some);
                    MeanType::lemma_names_distinct(found->0, mean);
                }
                Ok(mean)
            },
            None => {
                assert(MeanType::Arithmetic.name_of() != text@ && MeanType::Harmonic.name_of() != text@);
                Err(no_variant())
            },
        }
    }
}

/// What rarity simulation is run with.
#[derive(Clone, Copy, Debug, PartialEq, Eq, Structural)]
pub struct RaritySimulationOptions {
    /// The mebibytes of memory of each run.
    pub memory_size: u64,
    /// The number of instructions that each run executes in a round.
    pub step_size: u64,
    /// The number of runs in a round.
    pub amount_of_states: usize,
    /// The number of runs that are kept after a round.
    pub selection: usize,
    /// The number of rounds.
    pub iterations: u64,
    /// The bits of the binary64 number that says which share of the new runs
    /// of a round are copies of runs that were kept.
    pub copy_init_ratio: u64,
    /// The mean of the counts.
    pub mean: MeanType,
}

impl Default for RaritySimulationOptions {
    fn default() -> (r: RaritySimulationOptions)
        ensures
            r == (RaritySimulationOptions {
                memory_size: (defaults::MEMORY_SIZE / defaults::MIB) as u64,
                step_size: defaults::STEP_SIZE,
                amount_of_states: defaults::AMOUNT_OF_STATES,
                selection: defaults::SELECTION,
                iterations: defaults::ITERATIONS,
                copy_init_ratio: defaults::COPY_INIT_RATIO,
                mean: MeanType::Harmonic,
            }),
            r.config_error() is None,
    {
        proof {
            defaults::lemma_defaults_valid();
        }
        RaritySimulationOptions {
            memory_size: defaults::MEMORY_SIZE / defaults::MIB,
            step_size: defaults::STEP_SIZE,
            amount_of_states: defaults::AMOUNT_OF_STATES,
            selection: defaults::SELECTION,
            iterations: defaults::ITERATIONS,
            copy_init_ratio: defaults::COPY_INIT_RATIO,
            mean: defaults::mean_type(),
        }
    }
}

impl RaritySimulationOptions {
    /// What is wrong with the options, if anything is.
    pub open spec fn config_error(self) -> Option<ConfigError> {
        if !(MIN_MEMORY_SIZE <= self.memory_size <= MAX_MEMORY_SIZE) {
            Some(ConfigError::MemorySize)
        } else if !is_unit_ratio(self.copy_init_ratio) {
            Some(ConfigError::CopyInitRatio)
        } else {
            None
        }
    }

    /// Accepts the options that an engine can be run with.
    pub fn validate(&self) -> (r: Result<(), ConfigError>)
        ensures
            match self.config_error() {
                Some(error) => r == Err::<(), ConfigError>(error),
                None => r is Ok,
            },
    {
        if self.memory_size < MIN_MEMORY_SIZE || self.memory_size > MAX_MEMORY_SIZE {
            Err(ConfigError::MemorySize)
        } else if !ratio_in_range(self.copy_init_ratio) {
            Err(ConfigError::CopyInitRatio)
        } else {
            Ok(())
        }
    }
}

/// How often each state was seen, over all rounds. A state is told by its
/// fingerprint, a number that stands for what the state holds.
pub struct Counters {
    counts: HashMap<u64, u64>,
    total: u64,
    seen: Ghost<Multiset<u64>>,
}

impl View for Counters {
    type V = Multiset<u64>;

    closed spec fn view(&self) -> Multiset<u64> {
        self.seen@
    }
}

impl Counters {
    /// Whether the counts are those of what was seen.
    pub closed spec fn wf(self) -> bool {
        &&& self.total == self.seen@.len()
        &&& forall|fingerprint: u64|
            self.counts@.contains_key(fingerprint) ==> self.counts@[fingerprint]
                == #[trigger] self.seen@.count(fingerprint)
        &&& forall|fingerprint: u64|
            !self.counts@.contains_key(fingerprint) ==> #[trigger] self.seen@.count(fingerprint)
                == 0
    }

    /// Counters that have seen nothing.
    pub fn new() -> (r: Counters)
        ensures
            r.wf(),
            r@ == Multiset::<u64>::empty(),
    {
        Counters { counts: HashMap::new(), total: 0, seen: Ghost(Multiset::empty()) }
    }

    /// How often the state with this fingerprint was seen.
    pub fn count(&self, fingerprint: u64) -> (r: u64)
        requires
            self.wf(),
        ensures
            r == self@.count(fingerprint),
    {
        match self.counts.get(&fingerprint) {
            Some(count) => *count,
            None => 0,
        }
    }

    /// How many states were seen, each as often as it was seen.
    pub fn total(&self) -> (r: u64)
        requires
            self.wf(),
        ensures
            r == self@.len(),
    {
        self.total
    }

    /// Takes note that the state with this fingerprint was seen once more.
    /// Nothing is noted, and `false` comes back, where as much was seen as can
    /// be counted.
    pub fn observe(&mut self, fingerprint: u64) -> (r: bool)
        requires
            old(self).wf(),
        ensures
            final(self).wf(),
            r == (old(self)@.len() < u64::MAX),
            r ==> final(self)@ == old(self)@.insert(fingerprint),
            !r ==> final(self)@ == old(self)@,
    {
        if self.total == u64::MAX {
            return false;
        }
        let count = self.count(fingerprint);
        assert(self.seen@.count(fingerprint) <= self.seen@.len());
        self.counts.insert(fingerprint, count + 1);
        self.total = self.total + 1;
        proof {
            self.seen@ = self.seen@.insert(fingerprint);
        }
        true
    }
}

/// The fingerprints of a round, run after run: `round` holds for each run the
/// fingerprints of the states that the run came into, one for each
/// instruction that it executed.
pub open spec fn all_of(round: Seq<Seq<u64>>) -> Seq<u64>
    decreases round.len(),
{
    if round.len() == 0 {
        Seq::empty()
    } else {
        all_of(round.drop_last()) + round.last()
    }
}

/// The fingerprints that each run of a round holds, as plain values.
pub open spec fn runs_of(round: Seq<Vec<u64>>) -> Seq<Seq<u64>> {
    round.map_values(|run: Vec<u64>| run@)
}

/// A round in which every run executes `step_size` instructions sees as many
/// states as there are runs times `step_size`.
pub proof fn lemma_round_size(round: Seq<Seq<u64>>, step_size: nat)
    requires
        forall|i: int| 0 <= i < round.len() ==> (#[trigger] round[i]).len() == step_size,
    ensures
        all_of(round).len() == round.len() * step_size,
    decreases round.len(),
{
    if round.len() > 0 {
        lemma_round_size(round.drop_last(), step_size);
        assert(round.last() == round[round.len() - 1]);
        let runs = round.len() as int;
        let size = step_size as int;
        assert((runs - 1) * size + size == runs * size) by (nonlinear_arith);
    }
}

/// What was seen before a round is seen as often or more often after it, and
/// the states seen are more by the number that the round saw.
pub proof fn lemma_counts_grow(before: Multiset<u64>, seen: Seq<u64>, fingerprint: u64)
    ensures
        before.add(seen.to_multiset()).count(fingerprint) >= before.count(fingerprint),
        before.add(seen.to_multiset()).len() == before.len() + seen.len(),
{
    to_multiset_len(seen);
}

/// Over a round in which every run executes `step_size` instructions, the
/// states seen grow by the number of runs times `step_size`, and no state is
/// seen less often than before.
pub proof fn lemma_round_adds(before: Multiset<u64>, round: Seq<Seq<u64>>, step_size: nat)
    requires
        forall|i: int| 0 <= i < round.len() ==> (#[trigger] round[i]).len() == step_size,
    ensures
        before.add(all_of(round).to_multiset()).len() == before.len() + round.len() * step_size,
        forall|fingerprint: u64|
            #[trigger] before.add(all_of(round).to_multiset()).count(fingerprint) >= before.count(
                fingerprint,
            ),
{
    lemma_round_size(round, step_size);
    to_multiset_len(all_of(round));
}

impl Counters {
    /// Takes note of the states with these fingerprints, each seen once more
    /// for each time that it occurs. Nothing is noted, and `false` comes back,
    /// where that would be more than can be counted.
    pub fn observe_all(&mut self, fingerprints: &Vec<u64>) -> (r: bool)
        requires
            old(self).wf(),
        ensures
            final(self).wf(),
            r == (old(self)@.len() + fingerprints@.len() <= u64::MAX),
            r ==> final(self)@ == old(self)@.add(fingerprints@.to_multiset()),
            !r ==> final(self)@ == old(self)@,
    {
        if fingerprints.len() as u64 > u64::MAX - self.total {
            return false;
        }
        let mut i: usize = 0;
        proof {
            assert(fingerprints@.take(0) =~= Seq::<u64>::empty());
            lemma_nothing_seen(self@);
        }
        while i < fingerprints.len()
            invariant
                i <= fingerprints.len(),
                self.wf(),
                old(self)@.len() + fingerprints@.len() <= u64::MAX,
                self@ == old(self)@.add(fingerprints@.take(i as int).to_multiset()),
            decreases fingerprints.len() - i,
        {
            proof {
                to_multiset_len(fingerprints@.take(i as int));
                to_multiset_build(fingerprints@.take(i as int), fingerprints@[i as int]);
                assert(fingerprints@.take(i + 1) =~= fingerprints@.take(i as int).push(
                    fingerprints@[i as int],
                ));
            }
            let noted = self.observe(fingerprints[i]);
            assert(noted);
            assert(self@ =~= old(self)@.add(fingerprints@.take(i + 1).to_multiset()));
            i += 1;
        }
        assert(fingerprints@.take(fingerprints@.len() as int) =~= fingerprints@);
        true
    }

    /// Takes note of the states that the runs of a round came into. Nothing
    /// is noted, and `false` comes back, where that would be more than can be
    /// counted.
    pub fn observe_round(&mut self, round: &Vec<Vec<u64>>) -> (r: bool)
        requires
            old(self).wf(),
        ensures
            final(self).wf(),
            r == (old(self)@.len() + all_of(runs_of(round@)).len() <= u64::MAX),
            r ==> final(self)@ == old(self)@.add(all_of(runs_of(round@)).to_multiset()),
            !r ==> final(self)@ == old(self)@,
    {
        let ghost runs = runs_of(round@);
        let room = u64::MAX - self.total;
        let mut size: u64 = 0;
        let mut i: usize = 0;
        assert(runs.take(0) =~= Seq::<Seq<u64>>::empty());
        while i < round.len()
            invariant
                i <= round.len(),
                runs == runs_of(round@),
                room == u64::MAX - old(self)@.len(),
                size == all_of(runs.take(i as int)).len(),
                size <= room,
                self.wf(),
                self@ == old(self)@,
            decreases round.len() - i,
        {
            proof {
                assert(runs.take(i + 1).drop_last() =~= runs.take(i as int));
                assert(runs.take(i + 1).last() == round@[i as int]@);
                assert(runs.take(round@.len() as int) =~= runs);
                lemma_all_of_grows(runs, i + 1);
            }
            let len = round[i].len() as u64;
            if len > room - size {
                return false;
            }
            size = size + len;
            i += 1;
        }
        assert(runs.take(round@.len() as int) =~= runs);
        let mut i: usize = 0;
        proof {
            lemma_nothing_seen(self@);
        }
        while i < round.len()
            invariant
                i <= round.len(),
                self.wf(),
                runs == runs_of(round@),
                old(self)@.len() + all_of(runs).len() <= u64::MAX,
                self@ == old(self)@.add(all_of(runs.take(i as int)).to_multiset()),
            decreases round.len() - i,
        {
            proof {
                assert(runs.take(i + 1).drop_last() =~= runs.take(i as int));
                assert(runs.take(i + 1).last() == round@[i as int]@);
                assert(runs.take(round@.len() as int) =~= runs);
                lemma_all_of_grows(runs, i + 1);
                to_multiset_len(all_of(runs.take(i as int)));
                lemma_multiset_commutative(all_of(runs.take(i as int)), round@[i as int]@);
            }
            let noted = self.observe_all(&round[i]);
            assert(noted);
            assert(self@ =~= old(self)@.add(all_of(runs.take(i + 1)).to_multiset()));
            i += 1;
        }
        true
    }
}

/// Where no state is seen, what was seen before is what is seen after.
proof fn lemma_nothing_seen(before: Multiset<u64>)
    ensures
        before.add(Seq::<u64>::empty().to_multiset()) == before,
{
    to_multiset_len(Seq::<u64>::empty());
    assert(Seq::<u64>::empty().to_multiset() =~= Multiset::<u64>::empty());
    assert(before.add(Multiset::<u64>::empty()) =~= before);
}

/// The first runs of a round see no more states than the whole round.
proof fn lemma_all_of_grows(round: Seq<Seq<u64>>, first: int)
    requires
        0 <= first <= round.len(),
    ensures
        all_of(round.take(first)).len() <= all_of(round).len(),
    decreases round.len() - first,
{
    if first < round.len() {
        lemma_all_of_grows(round, first + 1);
        assert(round.take(first + 1).drop_last() =~= round.take(first));
    } else {
        assert(round.take(first) =~= round);
    }
}

/// Whether the run at place `i` is kept before the run at place `j`, or is
/// that run: its score is lower, or the same and its place no later. A lower
/// score is that of a run that came into rarer states.
pub open spec fn ranks_before(scores: Seq<u64>, i: int, j: int) -> bool {
    scores[i] < scores[j] || (scores[i] == scores[j] && i <= j)
}

/// Whether `order` holds the place `j`.
spec fn holds(order: Seq<usize>, j: int) -> bool {
    exists|p: int| 0 <= p < order.len() && #[trigger] order[p] == j
}

/// The places of the runs that are kept after a round: the `selection` best,
/// or all where there are no more, the best first. A score is a number by
/// which the runs are ordered.
pub fn select_best(scores: &Vec<u64>, selection: usize) -> (r: Vec<usize>)
    ensures
        r@.len() == if selection <= scores@.len() {
            selection as nat
        } else {
            scores@.len()
        },
        forall|k: int| 0 <= k < r@.len() ==> #[trigger] r@[k] < scores@.len(),
        forall|a: int, b: int|
            #![trigger r@[a], r@[b]]
            0 <= a < b < r@.len() ==> r@[a] != r@[b] && ranks_before(
                scores@,
                r@[a] as int,
                r@[b] as int,
            ),
        forall|k: int, j: int|
            #![trigger r@[k], scores@[j]]
            0 <= k < r@.len() && 0 <= j < scores@.len() && !r@.contains(j as usize)
                ==> ranks_before(scores@, r@[k] as int, j),
{
    let n = scores.len();
    let wanted = if selection <= n {
        selection
    } else {
        n
    };
    let mut order: Vec<usize> = Vec::new();
    while order.len() < n
        invariant
            order.len() <= n,
            forall|p: int| 0 <= p < order.len() ==> order@[p] == p,
        decreases n - order.len(),
    {
        order.push(order.len());
    }
    assert forall|j: int| 0 <= j < n implies #[trigger] holds(order@, j) by {
        assert(order@[j] == j);
    }
    let mut k: usize = 0;
    while k < wanted
        invariant
            n == scores@.len(),
            order.len() == n,
            k <= wanted <= n,
            forall|p: int| 0 <= p < n ==> #[trigger] order@[p] < n,
            forall|p: int, q: int| 0 <= p < q < n ==> #[trigger] order@[p] != #[trigger] order@[q],
            forall|j: int| 0 <= j < n ==> #[trigger] holds(order@, j),
            forall|a: int, b: int|
                #![trigger order@[a], order@[b]]
                0 <= a < k && a < b < n ==> ranks_before(
                    scores@,
                    order@[a] as int,
                    order@[b] as int,
                ),
        decreases wanted - k,
    {
        let mut best = k;
        let mut i = k + 1;
        while i < n
            invariant
                n == scores@.len(),
                order.len() == n,
                k < n,
                k <= best < i <= n,
                forall|p: int| 0 <= p < n ==> #[trigger] order@[p] < n,
                forall|p: int, q: int|
                    0 <= p < q < n ==> #[trigger] order@[p] != #[trigger] order@[q],
                forall|p: int|
                    k <= p < i ==> ranks_before(
                        scores@,
                        order@[best as int] as int,
                        #[trigger] order@[p] as int,
                    ),
            decreases n - i,
        {
            let here = order[i];
            let there = order[best];
            if scores[here] < scores[there] || (scores[here] == scores[there] && here < there) {
                best = i;
            }
            i += 1;
        }
        let ghost before = order@;
        let first = order[best];
        let other = order[k];
        order.set(k, first);
        order.set(best, other);
        proof {
            let swap = |p: int|
                if p == k {
                    best as int
                } else if p == best {
                    k as int
                } else {
                    p
                };
            assert forall|p: int| 0 <= p < n implies order@[p] == before[swap(p)] by {}
            assert forall|p: int, q: int| 0 <= p < q < n implies #[trigger] order@[p]
                != #[trigger] order@[q] by {
                assert(order@[p] == before[swap(p)]);
                assert(order@[q] == before[swap(q)]);
                if swap(p) < swap(q) {
                    assert(before[swap(p)] != before[swap(q)]);
                } else {
                    assert(before[swap(q)] != before[swap(p)]);
                }
            }
            assert forall|j: int| 0 <= j < n implies #[trigger] holds(order@, j) by {
                assert(holds(before, j));
                let p = choose|p: int| 0 <= p < n && #[trigger] before[p] == j;
                assert(order@[swap(p)] == before[p]);
            }
            assert forall|a: int, b: int|
                #![trigger order@[a], order@[b]]
                0 <= a < k + 1 && a < b < n implies ranks_before(
                scores@,
                order@[a] as int,
                order@[b] as int,
            ) by {
                assert(order@[a] == before[swap(a)]);
                assert(order@[b] == before[swap(b)]);
                if a < k {
                    assert(ranks_before(scores@, before[a] as int, before[swap(b)] as int));
                } else {
                    assert(ranks_before(scores@, before[best as int] as int, before[swap(b)] as int));
                }
            }
        }
        k += 1;
    }
    let ghost whole = order@;
    order.truncate(wanted);
    proof {
        assert forall|k: int, j: int|
            #![trigger order@[k], scores@[j]]
            0 <= k < order@.len() && 0 <= j < scores@.len() && !order@.contains(
                j as usize,
            ) implies ranks_before(scores@, order@[k] as int, j) by {
            assert(holds(whole, j));
            let p = choose|p: int| 0 <= p < n && #[trigger] whole[p] == j;
            if p < wanted {
                assert(order@[p] == j as usize);
                assert(order@.contains(j as usize));
            } else {
                assert(ranks_before(scores@, whole[k] as int, whole[p] as int));
            }
        }
        assert forall|a: int, b: int|
            #![trigger order@[a], order@[b]]
            0 <= a < b < order@.len() implies order@[a] != order@[b] && ranks_before(
            scores@,
            order@[a] as int,
            order@[b] as int,
        ) by {
            assert(whole[a] != whole[b]);
            assert(ranks_before(scores@, whole[a] as int, whole[b] as int));
        }
    }
    order
}

/// What becomes of a place among the runs that is free after a round.
#[derive(Clone, Copy, Debug, PartialEq, Eq, Structural)]
pub enum Refill {
    /// A run that was kept is copied into it.
    Copy,
    /// A run starts in it from the entry of the program.
    Restart,
}

/// The bits of a number between zero and one as those of a number that is not
/// negative: negative zero is zero.
pub open spec fn unit_bits(bits: u64) -> u64 {
    if sign_of(bits) {
        0
    } else {
        bits
    }
}

/// The bits of the binary64 number one.
pub const ONE: u64 = 0x3FF0_0000_0000_0000;

/// What becomes of a free place where the share of copies is
/// `copy_init_ratio` and the generator of random numbers gave `random`, both
/// the bits of binary64 numbers between zero and one: a copy where the ratio
/// is one or the random number is below the ratio. So a ratio of zero never
/// copies and a ratio of one always does.
pub open spec fn refilled(copy_init_ratio: u64, random: u64) -> Refill {
    if copy_init_ratio == ONE || unit_bits(random) < unit_bits(copy_init_ratio) {
        Refill::Copy
    } else {
        Refill::Restart
    }
}

/// Decides what becomes of a free place.
pub fn refill(copy_init_ratio: u64, random: u64) -> (r: Refill)
    requires
        is_unit_ratio(copy_init_ratio),
        is_unit_ratio(random),
    ensures
        r == refilled(copy_init_ratio, random),
{
    let ratio = if copy_init_ratio >> 63 == 1 {
        0
    } else {
        copy_init_ratio
    };
    let drawn = if random >> 63 == 1 {
        0
    } else {
        random
    };
    if copy_init_ratio == ONE || drawn < ratio {
        Refill::Copy
    } else {
        Refill::Restart
    }
}

/// A free place is taken by a copy exactly where the ratio is the number one
/// or the random number is the smaller number.
pub proof fn lemma_refill_compares_numbers(copy_init_ratio: u64, random: u64)
    requires
        is_unit_ratio(copy_init_ratio),
        is_unit_ratio(random),
    ensures
        refilled(copy_init_ratio, random) == Refill::Copy <==> copy_init_ratio == ONE || magnitude(
            random,
        ) < magnitude(copy_init_ratio),
{
    assert(!sign_of(0)) by {
        assert(0u64 >> 63 == 0) by (bit_vector);
    }
    assert(magnitude(0) == 0) by {
        assert((0u64 >> 52) & 0x7ff == 0 && 0u64 & 0xf_ffff_ffff_ffff == 0) by (bit_vector);
    }
    assert(magnitude(unit_bits(random)) == magnitude(random));
    assert(magnitude(unit_bits(copy_init_ratio)) == magnitude(copy_init_ratio));
    lemma_magnitude_order(unit_bits(random), unit_bits(copy_init_ratio));
}

/// With a ratio of zero every free place is taken by a run that starts
/// afresh, and with a ratio of one every free place is taken by a copy,
/// whatever number the generator gives.
pub proof fn lemma_ratio_limits(random: u64)
    requires
        is_unit_ratio(random),
    ensures
        is_unit_ratio(0) && is_unit_ratio(ONE),
        refilled(0, random) == Refill::Restart,
        refilled(ONE, random) == Refill::Copy,
{
    assert(0u64 >> 63 == 0 && (0u64 >> 52) & 0x7ff == 0) by (bit_vector);
    assert(0x3FF0_0000_0000_0000u64 >> 63 == 0 && (0x3FF0_0000_0000_0000u64 >> 52) & 0x7ff
        == 1023 && 0x3FF0_0000_0000_0000u64 & 0xf_ffff_ffff_ffff == 0) by (bit_vector);
}

} // verus!
