//! The measurement harness: algorithms bound to input generators, deadline-bounded
//! discovery of the sizes each one reaches, and repeated timed rounds.
use crate::description::{PackMeasuresDescription, TargetDescription};
use crate::timer::{Timer, TimerType};
use vstd::prelude::*;

verus! {

/// A routine under test that only reads its input.
pub trait ReadingRoutine<AlgArgT, AlgResT> {
    fn run(&self, input: &AlgArgT) -> AlgResT;
}

/// A routine under test that may change its input in place.
pub trait MutatingRoutine<AlgArgT, AlgResT> {
    fn run(&self, input: &mut AlgArgT) -> AlgResT;
}

/// Makes a fresh input of a given size; it may keep state between calls.
pub trait InputGenerator<GenArgT, AlgArgT> {
    fn generate(&mut self, size: &GenArgT) -> AlgArgT;
}

/// Runs a routine once, isolated, and says whether it finished within a threshold.
pub trait DeadlineEnforcer<AlgArgT, AlgResT> {
    fn completes_within(
        &mut self,
        algorithm: &Algorithm<AlgArgT, AlgResT>,
        data: AlgArgT,
        threshold_nanos: u128,
    ) -> bool;
}

/// A deadline enforcer together with the record of every answer it gave through this
/// wrapper, in order, each with the threshold it was asked about.
pub struct LoggedEnforcer<E> {
    enforcer: E,
    answers: Ghost<Seq<(u128, bool)>>,
}

impl<E> LoggedEnforcer<E> {
    pub closed spec fn answers(&self) -> Seq<(u128, bool)> {
        self.answers@
    }

    pub closed spec fn enforcer_view(&self) -> E {
        self.enforcer
    }

    /// Wraps `enforcer`; nothing asked yet.
    pub fn new(enforcer: E) -> (r: Self)
        ensures
            r.answers() == Seq::<(u128, bool)>::empty(),
            r.enforcer_view() == enforcer,
    {
        LoggedEnforcer { enforcer, answers: Ghost(Seq::empty()) }
    }

    /// The wrapped enforcer.
    pub fn inner(&self) -> (r: &E)
        ensures
            *r == self.enforcer_view(),
    {
        &self.enforcer
    }

    /// Asks the enforcer whether `algorithm` finishes on `data` within `threshold_nanos`,
    /// and records the answer.
    pub fn completes_within<AlgArgT, AlgResT>(
        &mut self,
        algorithm: &Algorithm<AlgArgT, AlgResT>,
        data: AlgArgT,
        threshold_nanos: u128,
    ) -> (r: bool) where E: DeadlineEnforcer<AlgArgT, AlgResT>
        ensures
            final(self).answers() == old(self).answers().push((threshold_nanos, r)),
    {
        let r = self.enforcer.completes_within(algorithm, data, threshold_nanos);
        self.answers = Ghost(self.answers@.push((threshold_nanos, r)));
        r
    }
}

/// The answers of a search record, each with the threshold asked about.
pub open spec fn tagged(outcomes: Seq<bool>, threshold_nanos: u128) -> Seq<(u128, bool)> {
    outcomes.map_values(|o: bool| (threshold_nanos, o))
}

/// The routine under test, with whether it reads or changes its input.
#[verifier::reject_recursive_types(AlgArgT)]
#[verifier::reject_recursive_types(AlgResT)]
pub enum Algorithm<AlgArgT, AlgResT> {
    NonMutatingAlgorithm(Box<dyn ReadingRoutine<AlgArgT, AlgResT>>),
    MutatingAlgorithm(Box<dyn MutatingRoutine<AlgArgT, AlgResT>>),
}

impl<AlgArgT, AlgResT> Algorithm<AlgArgT, AlgResT> {
    /// Runs the routine once on `data`; its result is dropped.
    pub fn invoke(&self, data: &mut AlgArgT) {
        match self {
            Algorithm::NonMutatingAlgorithm(f) => {
                let _ = f.run(data);
            },
            Algorithm::MutatingAlgorithm(f) => {
                let _ = f.run(data);
            },
        }
    }
}

/// The average of `total` over `iterations` runs, rounded down.
pub fn average_duration(total: u128, iterations: u64) -> (r: u128)
    requires
        iterations > 0,
    ensures
        r == total / (iterations as u128),
{
    total / (iterations as u128)
}

/// An algorithm under test with the generator of its inputs. Two algorithms with the same
/// file name are the same target.
#[verifier::reject_recursive_types(GenArgT)]
#[verifier::reject_recursive_types(AlgArgT)]
#[verifier::reject_recursive_types(AlgResT)]
pub struct MeasurableAlgorithm<GenArgT, AlgArgT, AlgResT> {
    pub filename: String,
    pub description: String,
    pub algorithm: Algorithm<AlgArgT, AlgResT>,
    pub generator: Box<dyn InputGenerator<GenArgT, AlgArgT>>,
    pub current_data: Option<AlgArgT>,
}

impl<GenArgT, AlgArgT, AlgResT> PartialEq for MeasurableAlgorithm<GenArgT, AlgArgT, AlgResT> {
    /// Targets are the same when their file names are.
    fn eq(&self, other: &Self) -> (r: bool) {
        self.filename == other.filename
    }
}

impl<GenArgT, AlgArgT, AlgResT> vstd::std_specs::cmp::PartialEqSpecImpl for MeasurableAlgorithm<GenArgT, AlgArgT, AlgResT> {
    open spec fn obeys_eq_spec() -> bool {
        true
    }

    open spec fn eq_spec(&self, other: &Self) -> bool {
        self.filename@ == other.filename@
    }
}

/// The record of a search for the number of sizes an algorithm reaches: the outcome of
/// each size probed, in sweep order, out of `total` sizes.
pub open spec fn valid_record(outcomes: Seq<bool>, total: nat) -> bool {
    outcomes.len() <= total && forall|i: int| 0 <= i < outcomes.len() - 1 ==> #[trigger] outcomes[i]
}

/// The search is over: a size failed, or every size was probed.
pub open spec fn search_finished(outcomes: Seq<bool>, total: nat) -> bool {
    (outcomes.len() > 0 && !outcomes.last()) || outcomes.len() == total
}

/// The number of leading sizes that succeeded.
pub open spec fn reached_count(outcomes: Seq<bool>) -> nat {
    if outcomes.len() > 0 && !outcomes.last() {
        (outcomes.len() - 1) as nat
    } else {
        outcomes.len()
    }
}

/// The state of the search for the number of leading sizes (swept in ascending order)
/// that an algorithm finishes within the deadline. It stops at the first failure.
pub struct SizeSearch {
    total: usize,
    reached: usize,
    finished: bool,
    outcomes: Ghost<Seq<bool>>,
}

impl SizeSearch {
    pub closed spec fn outcomes(&self) -> Seq<bool> {
        self.outcomes@
    }

    pub closed spec fn total(&self) -> nat {
        self.total as nat
    }

    pub closed spec fn wf(&self) -> bool {
        &&& valid_record(self.outcomes@, self.total as nat)
        &&& self.reached == reached_count(self.outcomes@)
        &&& self.finished == search_finished(self.outcomes@, self.total as nat)
    }

    /// A search over `total` sizes, nothing probed yet.
    pub fn new(total: usize) -> (r: SizeSearch)
        ensures
            r.wf(),
            valid_record(r.outcomes(), r.total()),
            r.total() == total,
            r.outcomes() == Seq::<bool>::empty(),
    {
        SizeSearch { total, reached: 0, finished: total == 0, outcomes: Ghost(Seq::empty()) }
    }

    /// The index of the next size to probe, or `None` once the search is over.
    pub fn next_index(&self) -> (r: Option<usize>)
        requires
            self.wf(),
        ensures
            r is None <==> search_finished(self.outcomes(), self.total()),
            r matches Some(i) ==> i == self.outcomes().len() && i < self.total(),
    {
        if self.finished {
            None
        } else {
            Some(self.reached)
        }
    }

    /// Records whether the size just probed finished in time.
    pub fn record(&mut self, completed: bool)
        requires
            old(self).wf(),
            !search_finished(old(self).outcomes(), old(self).total()),
        ensures
            final(self).wf(),
            valid_record(final(self).outcomes(), final(self).total()),
            final(self).total() == old(self).total(),
            final(self).outcomes() == old(self).outcomes().push(completed),
    {
        let ghost o = self.outcomes@.push(completed);
        if completed {
            self.reached = self.reached + 1;
            self.finished = self.reached == self.total;
        } else {
            self.finished = true;
        }
        self.outcomes = Ghost(o);
        assert(forall|i: int| 0 <= i < o.len() - 1 ==> o[i] == old(self).outcomes@[i]);
    }

    /// The number of leading sizes that finished in time.
    pub fn reached(&self) -> (r: usize)
        requires
            self.wf(),
        ensures
            r == reached_count(self.outcomes()),
            r <= self.total(),
    {
        self.reached
    }
}

/// Law: discovery is monotonic. When the search is over and reports `k` sizes reached,
/// every size before index `k` finished in time and, if there is a size at index `k`, it
/// was probed and failed. When every probe succeeded, the whole sweep is reached.
pub proof fn lemma_discovery_monotone(outcomes: Seq<bool>, total: nat)
    requires
        valid_record(outcomes, total),
        search_finished(outcomes, total),
    ensures
        reached_count(outcomes) <= total,
        forall|i: int| 0 <= i < reached_count(outcomes) ==> #[trigger] outcomes[i],
        reached_count(outcomes) < total ==> outcomes.len() == reached_count(outcomes) + 1
            && !outcomes[reached_count(outcomes) as int],
        (forall|i: int| 0 <= i < outcomes.len() ==> #[trigger] outcomes[i]) ==> reached_count(outcomes)
            == total,
{
    if forall|i: int| 0 <= i < outcomes.len() ==> #[trigger] outcomes[i] {
        if outcomes.len() > 0 {
            assert(outcomes[outcomes.len() - 1]);
        }
    }
}

impl<GenArgT, AlgArgT, AlgResT> MeasurableAlgorithm<GenArgT, AlgArgT, AlgResT> {
    /// A target whose routine only reads its input; its file name is its description.
    pub fn new(
        description: &str,
        algorithm: Box<dyn ReadingRoutine<AlgArgT, AlgResT>>,
        generator: Box<dyn InputGenerator<GenArgT, AlgArgT>>,
    ) -> (r: Self)
        ensures
            r.description@ == description@,
            r.filename@ == description@,
            r.algorithm == Algorithm::NonMutatingAlgorithm(algorithm),
            r.current_data is None,
    {
        let r = MeasurableAlgorithm {
            description: String::from_str(description),
            filename: String::from_str(description),
            algorithm: Algorithm::NonMutatingAlgorithm(algorithm),
            generator,
            current_data: None,
        };
        r
    }

    /// A target whose routine changes its input; its file name is its description.
    pub fn new_mut(
        description: &str,
        algorithm: Box<dyn MutatingRoutine<AlgArgT, AlgResT>>,
        generator: Box<dyn InputGenerator<GenArgT, AlgArgT>>,
    ) -> (r: Self)
        ensures
            r.description@ == description@,
            r.filename@ == description@,
            r.algorithm == Algorithm::MutatingAlgorithm(algorithm),
            r.current_data is None,
    {
        let r = MeasurableAlgorithm {
            description: String::from_str(description),
            filename: String::from_str(description),
            algorithm: Algorithm::MutatingAlgorithm(algorithm),
            generator,
            current_data: None,
        };
        r
    }

    /// The same target under another file name.
    pub fn with_filename(self, filename: &str) -> (r: Self)
        ensures
            r.filename@ == filename@,
            r.description == self.description,
            r.algorithm == self.algorithm,
            r.generator == self.generator,
            r.current_data == self.current_data,
    {
        let mut s = self;
        s.filename = String::from_str(filename);
        s
    }

    /// Keeps an input at hand.
    pub fn set_current_data(&mut self, data: AlgArgT)
        ensures
            final(self).filename == old(self).filename,
            final(self).description == old(self).description,
            final(self).current_data == Some(data),
    {
        self.current_data = Some(data);
    }

    /// One round: for each of the first `count` sizes, the average duration, in
    /// nanoseconds, of `iterations` runs on freshly generated inputs; generation is kept out
    /// of the timed window.
    pub fn measure<TimerT: Timer>(&mut self, sizes: &Vec<GenArgT>, count: usize, iterations: u64) -> (r: Vec<
        u128,
    >)
        requires
            iterations > 0,
            count <= sizes@.len(),
        ensures
            r@.len() == count,
            final(self).filename == old(self).filename,
            final(self).description == old(self).description,
    {
        let mut elapsed_for_sizes: Vec<u128> = Vec::new();
        let mut i: usize = 0;
        while i < count
            invariant
                0 <= i <= count,
                count <= sizes@.len(),
                iterations > 0,
                elapsed_for_sizes@.len() == i,
                self.filename == old(self).filename,
                self.description == old(self).description,
            decreases count - i,
        {
            let mut data: Vec<AlgArgT> = Vec::new();
            let mut k: u64 = 0;
            while k < iterations
                invariant
                    0 <= k <= iterations,
                    i < count,
                    count <= sizes@.len(),
                    self.filename == old(self).filename,
                    self.description == old(self).description,
                decreases iterations - k,
            {
                let input = self.generator.generate(&sizes[i]);
                data.push(input);
                k = k + 1;
            }
            let stopwatch = TimerT::now();
            while data.len() > 0
                decreases data.len(),
            {
                match data.pop() {
                    Some(mut input) => {
                        self.algorithm.invoke(&mut input);
                    },
                    None => {},
                }
            }
            let total = stopwatch.elapsed();
            elapsed_for_sizes.push(average_duration(total, iterations));
            i = i + 1;
        }
        elapsed_for_sizes
    }

    /// Probes the sizes in ascending order, each on a freshly generated input through the
    /// deadline enforcer with `threshold_nanos`, and stops at the first that does not finish
    /// in time. The record holds the enforcer's answers, in order.
    pub fn calculate_max_data_size<E: DeadlineEnforcer<AlgArgT, AlgResT>>(
        &mut self,
        sizes: &Vec<GenArgT>,
        threshold_nanos: u128,
        enforcer: &mut LoggedEnforcer<E>,
    ) -> (r: SizeSearch)
        ensures
            r.wf(),
            valid_record(r.outcomes(), r.total()),
            r.total() == sizes@.len(),
            search_finished(r.outcomes(), r.total()),
            final(enforcer).answers() == old(enforcer).answers() + tagged(r.outcomes(), threshold_nanos),
            final(self).filename == old(self).filename,
            final(self).description == old(self).description,
    {
        let mut search = SizeSearch::new(sizes.len());
        assert(old(enforcer).answers() + tagged(search.outcomes(), threshold_nanos) =~= old(enforcer).answers());
        loop
            invariant
                search.wf(),
                valid_record(search.outcomes(), search.total()),
                search.total() == sizes@.len(),
                enforcer.answers() == old(enforcer).answers() + tagged(search.outcomes(), threshold_nanos),
                self.filename == old(self).filename,
                self.description == old(self).description,
            ensures
                search.wf(),
                valid_record(search.outcomes(), search.total()),
                search.total() == sizes@.len(),
                search_finished(search.outcomes(), search.total()),
                enforcer.answers() == old(enforcer).answers() + tagged(search.outcomes(), threshold_nanos),
                self.filename == old(self).filename,
                self.description == old(self).description,
            decreases search.total() - search.outcomes().len(),
        {
            match search.next_index() {
                None => {
                    break ;
                },
                Some(i) => {
                    let data = self.generator.generate(&sizes[i]);
                    let ghost before = search.outcomes();
                    let completed = enforcer.completes_within(&self.algorithm, data, threshold_nanos);
                    search.record(completed);
                    assert(tagged(search.outcomes(), threshold_nanos) =~= tagged(before, threshold_nanos).push(
                        (threshold_nanos, completed),
                    ));
                    assert(enforcer.answers() =~= old(enforcer).answers() + tagged(search.outcomes(), threshold_nanos));
                },
            }
        }
        search
    }
}

/// The samples of one algorithm: how many leading sizes it reached, and for each reached
/// size the durations (nanoseconds) of the rounds so far, in round order.
pub struct AlgorithmTimeStatistic {
    pub max_size_number: usize,
    pub measures: Vec<Vec<u128>>,
}

/// `n` empty sample lists.
pub open spec fn empty_samples(n: nat) -> Seq<Seq<u128>> {
    Seq::new(n, |i: int| Seq::<u128>::empty())
}

/// The samples right after a sizing phase: for each target, one empty list per reached size.
pub open spec fn sized_samples(max_sizes: Seq<nat>) -> Seq<Seq<Seq<u128>>> {
    Seq::new(max_sizes.len(), |k: int| empty_samples(max_sizes[k]))
}

/// The answers of several search records, one after the other, each with the threshold.
pub open spec fn tagged_all(records: Seq<Seq<bool>>, threshold_nanos: u128) -> Seq<(u128, bool)>
    decreases records.len(),
{
    if records.len() == 0 {
        seq![]
    } else {
        tagged_all(records.drop_last(), threshold_nanos) + tagged(records.last(), threshold_nanos)
    }
}

/// A sizing pass over `total` sizes is explained by `records`, one finished search record
/// per target in target order: each target's count is the number of leading sizes its
/// record shows in time, and the enforcer's log grew by exactly those answers.
pub open spec fn sizing_explained(
    records: Seq<Seq<bool>>,
    total: nat,
    max_sizes: Seq<nat>,
    threshold_nanos: u128,
    answers_before: Seq<(u128, bool)>,
    answers_after: Seq<(u128, bool)>,
) -> bool {
    &&& records.len() == max_sizes.len()
    &&& forall|k: int| 0 <= k < records.len() ==> {
        &&& valid_record(#[trigger] records[k], total)
        &&& search_finished(records[k], total)
        &&& max_sizes[k] == reached_count(records[k])
    }
    &&& answers_after == answers_before + tagged_all(records, threshold_nanos)
}

/// `after` is `before` with `amount` more samples at each reached size of each target,
/// behind the samples `before` holds there.
pub open spec fn rounds_appended(
    before: Seq<Seq<Seq<u128>>>,
    max_sizes: Seq<nat>,
    amount: nat,
    after: Seq<Seq<Seq<u128>>>,
) -> bool {
    &&& after.len() == before.len()
    &&& max_sizes.len() == before.len()
    &&& forall|k: int| 0 <= k < after.len() ==> (#[trigger] after[k]).len() == max_sizes[k]
        && before[k].len() == max_sizes[k]
    &&& forall|k: int, i: int|
        0 <= k < after.len() && 0 <= i < max_sizes[k] ==> {
            &&& (#[trigger] after[k][i]).len() == before[k][i].len() + amount
            &&& after[k][i].subrange(0, before[k][i].len() as int) == before[k][i]
        }
}

/// Law: rounds accumulate. Measuring `n` rounds and then `m` more, with the reached sizes
/// fixed by the first call, leaves exactly `n + m` new samples at every reached size.
pub proof fn lemma_rounds_accumulate(
    s0: Seq<Seq<Seq<u128>>>,
    s1: Seq<Seq<Seq<u128>>>,
    s2: Seq<Seq<Seq<u128>>>,
    max_sizes: Seq<nat>,
    n: nat,
    m: nat,
)
    requires
        rounds_appended(s0, max_sizes, n, s1),
        rounds_appended(s1, max_sizes, m, s2),
    ensures
        forall|k: int, i: int|
            0 <= k < s2.len() && 0 <= i < max_sizes[k] ==> (#[trigger] s2[k][i]).len() == s0[k][i].len()
                + n + m,
{
    assert forall|k: int, i: int| 0 <= k < s2.len() && 0 <= i < max_sizes[k] implies (
    #[trigger] s2[k][i]).len() == s0[k][i].len() + n + m by {
        assert(s1[k][i].len() == s0[k][i].len() + n);
    }
}

/// Each column of `measures` with the matching duration appended.
fn append_round(measures: &mut Vec<Vec<u128>>, durations: &Vec<u128>)
    requires
        durations@.len() == old(measures)@.len(),
    ensures
        final(measures)@.len() == old(measures)@.len(),
        forall|i: int| 0 <= i < final(measures)@.len() ==> (#[trigger] final(measures)@[i])@ == old(
            measures,
        )@[i]@.push(durations@[i]),
{
    let mut out: Vec<Vec<u128>> = Vec::new();
    let mut i: usize = 0;
    while i < measures.len()
        invariant
            0 <= i <= measures@.len(),
            durations@.len() == measures@.len(),
            measures@ == old(measures)@,
            out@.len() == i,
            forall|j: int| 0 <= j < i ==> (#[trigger] out@[j])@ == measures@[j]@.push(durations@[j]),
        decreases measures@.len() - i,
    {
        let mut col = measures[i].clone();
        assert(col@ == measures@[i as int]@);
        col.push(durations[i]);
        out.push(col);
        i = i + 1;
    }
    *measures = out;
}

/// `n` empty sample lists.
fn empty_columns(n: usize) -> (r: Vec<Vec<u128>>)
    ensures
        r@.map_values(|v: Vec<u128>| v@) == empty_samples(n as nat),
{
    let mut m: Vec<Vec<u128>> = Vec::new();
    while m.len() < n
        invariant
            m@.len() <= n,
            forall|i: int| 0 <= i < m@.len() ==> (#[trigger] m@[i])@ == Seq::<u128>::empty(),
        decreases n - m@.len(),
    {
        m.push(Vec::new());
    }
    assert(m@.map_values(|v: Vec<u128>| v@) =~= empty_samples(n as nat));
    m
}

/// A benchmark: targets measured over one sweep of sizes with one timer, and their samples.
#[verifier::reject_recursive_types(GenArgT)]
#[verifier::reject_recursive_types(AlgArgT)]
#[verifier::reject_recursive_types(AlgResT)]
pub struct PackMeasures<GenArgT, AlgArgT, AlgResT> {
    description: String,
    filename: String,
    sizes: Vec<GenArgT>,
    timer: TimerType,
    x_label: String,
    y_label: String,
    iterations_amount: u64,
    use_threshold: bool,
    threshold: u128,
    targets: Vec<MeasurableAlgorithm<GenArgT, AlgArgT, AlgResT>>,
    statistics: Vec<AlgorithmTimeStatistic>,
    need_max_sizes_update: bool,
}

impl<GenArgT, AlgArgT, AlgResT> PackMeasures<GenArgT, AlgArgT, AlgResT> {
    pub closed spec fn wf(&self) -> bool {
        &&& self.targets@.len() == self.statistics@.len()
        &&& forall|k: int| 0 <= k < self.statistics@.len() ==> {
            &&& (#[trigger] self.statistics@[k]).max_size_number <= self.sizes@.len()
            &&& self.statistics@[k].measures@.len() == self.statistics@[k].max_size_number
        }
        &&& forall|i: int, j: int|
            0 <= i < j < self.targets@.len() ==> (#[trigger] self.targets@[i]).filename@
                != (#[trigger] self.targets@[j]).filename@
    }

    /// What a well-formed pack guarantees: one name, description, count and sample table per
    /// target; distinct names; each count within the sweep, with one sample list per
    /// reached size.
    pub proof fn lemma_wf(&self)
        requires
            self.wf(),
        ensures
            self.max_sizes().len() == self.names().len(),
            self.samples().len() == self.names().len(),
            self.descriptions().len() == self.names().len(),
            forall|i: int, j: int|
                0 <= i < j < self.names().len() ==> #[trigger] self.names()[i] != #[trigger] self.names()[j],
            forall|k: int| 0 <= k < self.names().len() ==> {
                &&& #[trigger] self.max_sizes()[k] <= self.sizes_view().len()
                &&& self.samples()[k].len() == self.max_sizes()[k]
            },
    {
        assert forall|i: int, j: int| 0 <= i < j < self.names().len() implies #[trigger] self.names()[i]
            != #[trigger] self.names()[j] by {
            assert(self.names()[i] == self.targets@[i].filename@);
            assert(self.names()[j] == self.targets@[j].filename@);
        }
        assert forall|k: int| 0 <= k < self.names().len() implies {
            &&& #[trigger] self.max_sizes()[k] <= self.sizes_view().len()
            &&& self.samples()[k].len() == self.max_sizes()[k]
        } by {
            assert(self.statistics@[k].measures@.len() == self.statistics@[k].max_size_number);
        }
    }

    /// The file names of the targets, in the order they were added.
    pub closed spec fn names(&self) -> Seq<Seq<char>> {
        self.targets@.map_values(|t: MeasurableAlgorithm<GenArgT, AlgArgT, AlgResT>| t.filename@)
    }

    /// The descriptions of the targets, in the order they were added.
    pub closed spec fn descriptions(&self) -> Seq<Seq<char>> {
        self.targets@.map_values(|t: MeasurableAlgorithm<GenArgT, AlgArgT, AlgResT>| t.description@)
    }

    /// How many leading sizes each target reached.
    pub closed spec fn max_sizes(&self) -> Seq<nat> {
        self.statistics@.map_values(|s: AlgorithmTimeStatistic| s.max_size_number as nat)
    }

    /// The samples of each target, per reached size, in round order.
    pub closed spec fn samples(&self) -> Seq<Seq<Seq<u128>>> {
        self.statistics@.map_values(
            |s: AlgorithmTimeStatistic| s.measures@.map_values(|v: Vec<u128>| v@),
        )
    }

    pub closed spec fn sizes_view(&self) -> Seq<GenArgT> {
        self.sizes@
    }

    pub closed spec fn iterations(&self) -> u64 {
        self.iterations_amount
    }

    pub closed spec fn threshold_nanos(&self) -> u128 {
        self.threshold
    }

    pub closed spec fn uses_threshold(&self) -> bool {
        self.use_threshold
    }

    pub closed spec fn needs_sizing(&self) -> bool {
        self.need_max_sizes_update
    }

    pub closed spec fn timer_kind(&self) -> TimerType {
        self.timer
    }

    pub closed spec fn labels(&self) -> (Seq<char>, Seq<char>, Seq<char>, Seq<char>) {
        (self.description@, self.filename@, self.x_label@, self.y_label@)
    }

    /// Everything but the targets and their samples is as in `other`.
    pub open spec fn same_settings(&self, other: &Self) -> bool {
        &&& self.sizes_view() == other.sizes_view()
        &&& self.iterations() == other.iterations()
        &&& self.threshold_nanos() == other.threshold_nanos()
        &&& self.uses_threshold() == other.uses_threshold()
        &&& self.timer_kind() == other.timer_kind()
        &&& self.labels() == other.labels()
    }

    /// An empty pack named `name` over the sweep `sizes`: process timer, 5 iterations per
    /// round, no deadline discovery, a deadline of one second.
    pub fn new(name: &str, sizes: Vec<GenArgT>) -> (r: Self)
        ensures
            r.wf(),
            r.names() == Seq::<Seq<char>>::empty(),
            r.sizes_view() == sizes@,
            r.labels() == (name@, name@, "Аргументы функций"@, "Значения функций"@),
            r.timer_kind() == TimerType::ProcessTimer,
            r.iterations() == 5,
            !r.uses_threshold(),
            r.threshold_nanos() == 1_000_000_000,
            r.needs_sizing(),
    {
        PackMeasures {
            description: String::from_str(name),
            filename: String::from_str(name),
            sizes,
            timer: TimerType::ProcessTimer,
            x_label: String::from_str("Аргументы функций"),
            y_label: String::from_str("Значения функций"),
            iterations_amount: 5,
            use_threshold: false,
            threshold: 1_000_000_000,
            targets: Vec::new(),
            statistics: Vec::new(),
            need_max_sizes_update: true,
        }
    }

    pub fn with_filename(self, filename: &str) -> (r: Self)
        requires
            self.wf(),
        ensures
            r.wf(),
            r.labels() == (self.labels().0, filename@, self.labels().2, self.labels().3),
            r.names() == self.names(),
            r.max_sizes() == self.max_sizes(),
            r.samples() == self.samples(),
            r.sizes_view() == self.sizes_view(),
            r.iterations() == self.iterations(),
            r.threshold_nanos() == self.threshold_nanos(),
            r.uses_threshold() == self.uses_threshold(),
            r.timer_kind() == self.timer_kind(),
            r.needs_sizing() == self.needs_sizing(),
    {
        let mut s = self;
        s.filename = String::from_str(filename);
        s
    }

    pub fn with_timer(self, timer: TimerType) -> (r: Self)
        requires
            self.wf(),
        ensures
            r.wf(),
            r.timer_kind() == timer,
            r.labels() == self.labels(),
            r.names() == self.names(),
            r.max_sizes() == self.max_sizes(),
            r.samples() == self.samples(),
            r.sizes_view() == self.sizes_view(),
            r.iterations() == self.iterations(),
            r.threshold_nanos() == self.threshold_nanos(),
            r.uses_threshold() == self.uses_threshold(),
            r.needs_sizing() == self.needs_sizing(),
    {
        let mut s = self;
        s.timer = timer;
        s
    }

    pub fn with_x_label(self, x_label: &str) -> (r: Self)
        requires
            self.wf(),
        ensures
            r.wf(),
            r.labels() == (self.labels().0, self.labels().1, x_label@, self.labels().3),
            r.names() == self.names(),
            r.max_sizes() == self.max_sizes(),
            r.samples() == self.samples(),
            r.sizes_view() == self.sizes_view(),
            r.iterations() == self.iterations(),
            r.threshold_nanos() == self.threshold_nanos(),
            r.uses_threshold() == self.uses_threshold(),
            r.timer_kind() == self.timer_kind(),
            r.needs_sizing() == self.needs_sizing(),
    {
        let mut s = self;
        s.x_label = String::from_str(x_label);
        s
    }

    pub fn with_y_label(self, y_label: &str) -> (r: Self)
        requires
            self.wf(),
        ensures
            r.wf(),
            r.labels() == (self.labels().0, self.labels().1, self.labels().2, y_label@),
            r.names() == self.names(),
            r.max_sizes() == self.max_sizes(),
            r.samples() == self.samples(),
            r.sizes_view() == self.sizes_view(),
            r.iterations() == self.iterations(),
            r.threshold_nanos() == self.threshold_nanos(),
            r.uses_threshold() == self.uses_threshold(),
            r.timer_kind() == self.timer_kind(),
            r.needs_sizing() == self.needs_sizing(),
    {
        let mut s = self;
        s.y_label = String::from_str(y_label);
        s
    }

    pub fn with_iterations_amount(self, iterations_amount: u64) -> (r: Self)
        requires
            self.wf(),
        ensures
            r.wf(),
            r.iterations() == iterations_amount,
            r.labels() == self.labels(),
            r.names() == self.names(),
            r.max_sizes() == self.max_sizes(),
            r.samples() == self.samples(),
            r.sizes_view() == self.sizes_view(),
            r.threshold_nanos() == self.threshold_nanos(),
            r.uses_threshold() == self.uses_threshold(),
            r.timer_kind() == self.timer_kind(),
            r.needs_sizing() == self.needs_sizing(),
    {
        let mut s = self;
        s.iterations_amount = iterations_amount;
        s
    }

    /// The same pack with a deadline of `threshold_nanos` nanoseconds.
    pub fn with_threshold(self, threshold_nanos: u128) -> (r: Self)
        requires
            self.wf(),
        ensures
            r.wf(),
            r.threshold_nanos() == threshold_nanos,
            r.labels() == self.labels(),
            r.names() == self.names(),
            r.max_sizes() == self.max_sizes(),
            r.samples() == self.samples(),
            r.sizes_view() == self.sizes_view(),
            r.iterations() == self.iterations(),
            r.uses_threshold() == self.uses_threshold(),
            r.timer_kind() == self.timer_kind(),
            r.needs_sizing() == self.needs_sizing(),
    {
        let mut s = self;
        s.threshold = threshold_nanos;
        s
    }

    pub fn set_threshold(&mut self, threshold_nanos: u128)
        requires
            old(self).wf(),
        ensures
            final(self).wf(),
            final(self).threshold_nanos() == threshold_nanos,
            final(self).labels() == old(self).labels(),
            final(self).names() == old(self).names(),
            final(self).max_sizes() == old(self).max_sizes(),
            final(self).samples() == old(self).samples(),
            final(self).sizes_view() == old(self).sizes_view(),
            final(self).iterations() == old(self).iterations(),
            final(self).uses_threshold() == old(self).uses_threshold(),
            final(self).timer_kind() == old(self).timer_kind(),
            final(self).needs_sizing() == old(self).needs_sizing(),
    {
        self.threshold = threshold_nanos;
    }

    /// Whether the sizing phase probes each target against the deadline (otherwise every
    /// target is taken to reach the whole sweep).
    pub fn use_threshold(&mut self, condition: bool)
        requires
            old(self).wf(),
        ensures
            final(self).wf(),
            final(self).uses_threshold() == condition,
            final(self).threshold_nanos() == old(self).threshold_nanos(),
            final(self).labels() == old(self).labels(),
            final(self).names() == old(self).names(),
            final(self).max_sizes() == old(self).max_sizes(),
            final(self).samples() == old(self).samples(),
            final(self).sizes_view() == old(self).sizes_view(),
            final(self).iterations() == old(self).iterations(),
            final(self).timer_kind() == old(self).timer_kind(),
            final(self).needs_sizing() == old(self).needs_sizing(),
    {
        self.use_threshold = condition;
    }

    /// Adds a target with no samples. A target of the same file name is already there: its
    /// samples are dropped instead, and it stays as it was otherwise.
    pub fn add_target(&mut self, measurable_algorithm: MeasurableAlgorithm<GenArgT, AlgArgT, AlgResT>)
        requires
            old(self).wf(),
        ensures
            final(self).wf(),
            final(self).same_settings(old(self)),
            final(self).needs_sizing() == old(self).needs_sizing(),
            !old(self).names().contains(measurable_algorithm.filename@) ==> {
                &&& final(self).names() == old(self).names().push(measurable_algorithm.filename@)
                &&& final(self).max_sizes() == old(self).max_sizes().push(0)
                &&& final(self).samples() == old(self).samples().push(Seq::empty())
            },
            forall|k: int|
                0 <= k < old(self).names().len() && old(self).names()[k]
                    == measurable_algorithm.filename@ ==> {
                    &&& final(self).names() == old(self).names()
                    &&& final(self).max_sizes() == old(self).max_sizes().update(k, 0)
                    &&& final(self).samples() == old(self).samples().update(k, Seq::empty())
                },
    {
        let mut k: usize = 0;
        while k < self.targets.len()
            invariant
                self == old(self),
                self.wf(),
                0 <= k <= self.targets@.len(),
                forall|j: int| 0 <= j < k ==> (#[trigger] self.targets@[j]).filename@
                    != measurable_algorithm.filename@,
            decreases self.targets@.len() - k,
        {
            if self.targets[k].filename == measurable_algorithm.filename {
                let fresh = AlgorithmTimeStatistic { max_size_number: 0, measures: Vec::new() };
                let ghost fresh_stat = fresh;
                self.statistics.set(k, fresh);
                proof {
                    assert(self.statistics@ == old(self).statistics@.update(k as int, fresh_stat));
                    assert(fresh_stat.measures@.map_values(|v: Vec<u128>| v@) =~= Seq::<Seq<u128>>::empty());
                    assert(self.names() =~= old(self).names());
                    assert(old(self).names()[k as int] == measurable_algorithm.filename@);
                    assert(old(self).names().contains(measurable_algorithm.filename@));
                    assert(self.max_sizes() =~= old(self).max_sizes().update(k as int, 0));
                    assert(self.samples() =~= old(self).samples().update(k as int, Seq::empty()));
                    assert forall|j: int|
                        0 <= j < old(self).names().len() && old(self).names()[j]
                            == measurable_algorithm.filename@ implies j == k by {
                        if j != k {
                            assert(old(self).names()[j] == old(self).targets@[j].filename@);
                            assert(old(self).names()[k as int] == old(self).targets@[k as int].filename@);
                        }
                    }
                }
                return;
            }
            k = k + 1;
        }
        proof {
            assert forall|j: int| 0 <= j < old(self).names().len() implies old(self).names()[j]
                != measurable_algorithm.filename@ by {
                assert(old(self).names()[j] == old(self).targets@[j].filename@);
            }
        }
        let fresh = AlgorithmTimeStatistic { max_size_number: 0, measures: Vec::new() };
        assert(fresh.measures@.map_values(|v: Vec<u128>| v@) =~= Seq::<Seq<u128>>::empty());
        self.targets.push(measurable_algorithm);
        self.statistics.push(fresh);
        proof {
            assert(self.names() =~= old(self).names().push(measurable_algorithm.filename@));
            assert(self.max_sizes() =~= old(self).max_sizes().push(0));
            assert(self.samples() =~= old(self).samples().push(Seq::empty()));
        }
    }

    /// The sizing phase: for every target, the number of leading sizes it reaches (found
    /// through the deadline enforcer, or the whole sweep when the deadline is not used),
    /// and one empty sample list per reached size.
    pub fn calculate_max_data_sizes<E: DeadlineEnforcer<AlgArgT, AlgResT>>(
        &mut self,
        enforcer: &mut LoggedEnforcer<E>,
    )
        requires
            old(self).wf(),
        ensures
            final(self).wf(),
            final(self).same_settings(old(self)),
            final(self).needs_sizing() == old(self).needs_sizing(),
            final(self).names() == old(self).names(),
            final(self).max_sizes().len() == old(self).max_sizes().len(),
            final(self).samples() == sized_samples(final(self).max_sizes()),
            forall|k: int| 0 <= k < final(self).max_sizes().len() ==> #[trigger] final(self).max_sizes()[k]
                <= final(self).sizes_view().len(),
            !final(self).uses_threshold() ==> final(enforcer).answers() == old(enforcer).answers()
                && forall|k: int| 0 <= k < final(self).max_sizes().len() ==> #[trigger] final(self).max_sizes()[k]
                    == final(self).sizes_view().len(),
            final(self).uses_threshold() ==> exists|records: Seq<Seq<bool>>| #[trigger]
                sizing_explained(
                    records,
                    final(self).sizes_view().len(),
                    final(self).max_sizes(),
                    final(self).threshold_nanos(),
                    old(enforcer).answers(),
                    final(enforcer).answers(),
                ),
    {
        let n = self.targets.len();
        let mut k: usize = 0;
        let ghost mut records: Seq<Seq<bool>> = Seq::empty();
        assert(old(enforcer).answers() + tagged_all(records, self.threshold) =~= old(enforcer).answers());
        while k < n
            invariant
                self.wf(),
                self.same_settings(old(self)),
                self.needs_sizing() == old(self).needs_sizing(),
                self.names() == old(self).names(),
                n == self.targets@.len(),
                self.max_sizes().len() == n,
                0 <= k <= n,
                forall|j: int| 0 <= j < k ==> {
                    &&& #[trigger] self.max_sizes()[j] <= self.sizes_view().len()
                    &&& !self.uses_threshold() ==> self.max_sizes()[j] == self.sizes_view().len()
                    &&& self.samples()[j] == empty_samples(self.max_sizes()[j])
                },
                !self.uses_threshold() ==> enforcer.answers() == old(enforcer).answers(),
                self.uses_threshold() ==> sizing_explained(
                    records,
                    self.sizes_view().len(),
                    self.max_sizes().subrange(0, k as int),
                    self.threshold_nanos(),
                    old(enforcer).answers(),
                    enforcer.answers(),
                ),
            decreases n - k,
        {
            let ghost before = *self;
            let ghost answers_before = enforcer.answers();
            let max = if self.use_threshold {
                let mut alg = self.targets.remove(k);
                let search = alg.calculate_max_data_size(&self.sizes, self.threshold, enforcer);
                let m = search.reached();
                self.targets.insert(k, alg);
                assert(self.targets@ =~= before.targets@.update(k as int, alg));
                assert(self.names() =~= before.names());
                proof {
                    let rs = records.push(search.outcomes());
                    assert(rs.drop_last() =~= records);
                    assert(enforcer.answers() =~= old(enforcer).answers() + tagged_all(rs, self.threshold));
                    records = rs;
                }
                m
            } else {
                self.sizes.len()
            };
            let _old_stat = self.statistics.remove(k);
            let measures = empty_columns(max);
            self.statistics.insert(k, AlgorithmTimeStatistic { max_size_number: max, measures });
            proof {
                assert(self.statistics@ =~= before.statistics@.update(
                    k as int,
                    AlgorithmTimeStatistic { max_size_number: max, measures },
                ));
                assert(self.max_sizes() =~= before.max_sizes().update(k as int, max as nat));
                assert(self.samples() =~= before.samples().update(k as int, empty_samples(max as nat)));
                assert(measures@.map_values(|v: Vec<u128>| v@).len() == measures@.len());
                assert(measures@.len() == max);
                assert forall|j: int| 0 <= j < self.statistics@.len() implies {
                    &&& (#[trigger] self.statistics@[j]).max_size_number <= self.sizes@.len()
                    &&& self.statistics@[j].measures@.len() == self.statistics@[j].max_size_number
                } by {
                    if j != k {
                        assert(self.statistics@[j] == before.statistics@[j]);
                    }
                }
                assert forall|i: int, j: int|
                    0 <= i < j < self.targets@.len() implies (#[trigger] self.targets@[i]).filename@
                        != (#[trigger] self.targets@[j]).filename@ by {
                    assert(self.targets@[i].filename@ == self.names()[i]);
                    assert(self.targets@[j].filename@ == self.names()[j]);
                    assert(before.targets@[i].filename@ == before.names()[i]);
                    assert(before.targets@[j].filename@ == before.names()[j]);
                }
                assert(self.max_sizes().subrange(0, k + 1) =~= before.max_sizes().subrange(0, k as int).push(
                    max as nat,
                ));
            }
            k = k + 1;
        }
        proof {
            assert(self.samples() =~= sized_samples(self.max_sizes()));
            assert(self.max_sizes().subrange(0, n as int) =~= self.max_sizes());
        }
    }

    /// The measuring phase: runs the sizing phase first if it is due, then `measures_amount`
    /// rounds for every target, each round adding one average duration (nanoseconds) to
    /// every size the target reached.
    pub fn measure<E: DeadlineEnforcer<AlgArgT, AlgResT>>(
        &mut self,
        measures_amount: u64,
        enforcer: &mut LoggedEnforcer<E>,
    )
        requires
            old(self).wf(),
            old(self).iterations() > 0,
        ensures
            final(self).wf(),
            final(self).same_settings(old(self)),
            !final(self).needs_sizing(),
            final(self).names() == old(self).names(),
            final(self).max_sizes().len() == old(self).max_sizes().len(),
            forall|k: int| 0 <= k < final(self).max_sizes().len() ==> #[trigger] final(self).max_sizes()[k]
                <= final(self).sizes_view().len(),
            !old(self).needs_sizing() ==> final(self).max_sizes() == old(self).max_sizes(),
            old(self).needs_sizing() && !old(self).uses_threshold() ==> forall|k: int|
                0 <= k < final(self).max_sizes().len() ==> #[trigger] final(self).max_sizes()[k]
                    == final(self).sizes_view().len(),
            rounds_appended(
                if old(self).needs_sizing() {
                    sized_samples(final(self).max_sizes())
                } else {
                    old(self).samples()
                },
                final(self).max_sizes(),
                measures_amount as nat,
                final(self).samples(),
            ),
            !old(self).needs_sizing() || !old(self).uses_threshold() ==> final(enforcer).answers()
                == old(enforcer).answers(),
            old(self).needs_sizing() && old(self).uses_threshold() ==> exists|records: Seq<Seq<bool>>|
                #[trigger] sizing_explained(
                    records,
                    final(self).sizes_view().len(),
                    final(self).max_sizes(),
                    final(self).threshold_nanos(),
                    old(enforcer).answers(),
                    final(enforcer).answers(),
                ),
    {
        if self.need_max_sizes_update {
            self.calculate_max_data_sizes(enforcer);
            self.need_max_sizes_update = false;
        } else {
            proof {
                assert forall|k: int| 0 <= k < self.samples().len() implies (#[trigger] self.samples()[k]).len()
                    == self.max_sizes()[k] by {
                    assert(self.statistics@[k].measures@.len() == self.statistics@[k].max_size_number);
                }
            }
        }
        let ghost mid = self.samples();
        let ghost maxs = self.max_sizes();
        let ghost sized_answers = enforcer.answers();
        assert(old(self).needs_sizing() ==> mid =~= sized_samples(maxs));
        let n = self.targets.len();
        let mut k: usize = 0;
        while k < n
            invariant
                self.wf(),
                self.same_settings(old(self)),
                !self.needs_sizing(),
                self.iterations() > 0,
                self.names() == old(self).names(),
                n == self.targets@.len(),
                self.max_sizes() == maxs,
                maxs.len() == n,
                mid.len() == n,
                0 <= k <= n,
                mid == if old(self).needs_sizing() {
                    sized_samples(maxs)
                } else {
                    old(self).samples()
                },
                forall|j: int| 0 <= j < n ==> (#[trigger] mid[j]).len() == maxs[j],
                enforcer.answers() == sized_answers,
                forall|j: int| k <= j < n ==> #[trigger] self.samples()[j] == mid[j],
                forall|j: int, i: int|
                    0 <= j < k && 0 <= i < maxs[j] ==> {
                        &&& (#[trigger] self.samples()[j][i]).len() == mid[j][i].len() + measures_amount
                        &&& self.samples()[j][i].subrange(0, mid[j][i].len() as int) == mid[j][i]
                    },
            decreases n - k,
        {
            let ghost before = *self;
            let mut alg = self.targets.remove(k);
            let mut stat = self.statistics.remove(k);
            assert(stat == before.statistics@[k as int]);
            match self.timer {
                TimerType::ProcessTimer => measure_target::<GenArgT, AlgArgT, AlgResT, cpu_time::ProcessTime>(
                    &mut alg,
                    &mut stat,
                    &self.sizes,
                    self.iterations_amount,
                    measures_amount,
                ),
                TimerType::ThreadTimer => measure_target::<GenArgT, AlgArgT, AlgResT, cpu_time::ThreadTime>(
                    &mut alg,
                    &mut stat,
                    &self.sizes,
                    self.iterations_amount,
                    measures_amount,
                ),
                TimerType::SystemTimer => measure_target::<GenArgT, AlgArgT, AlgResT, std::time::SystemTime>(
                    &mut alg,
                    &mut stat,
                    &self.sizes,
                    self.iterations_amount,
                    measures_amount,
                ),
            }
            self.targets.insert(k, alg);
            self.statistics.insert(k, stat);
            proof {
                assert(self.targets@ =~= before.targets@.update(k as int, alg));
                assert(self.statistics@ =~= before.statistics@.update(k as int, stat));
                assert(self.names() =~= before.names());
                assert(self.max_sizes() =~= before.max_sizes());
                assert forall|i: int, j: int|
                    0 <= i < j < self.targets@.len() implies (#[trigger] self.targets@[i]).filename@
                        != (#[trigger] self.targets@[j]).filename@ by {
                    assert(self.targets@[i].filename@ == self.names()[i]);
                    assert(self.targets@[j].filename@ == self.names()[j]);
                    assert(before.targets@[i].filename@ == before.names()[i]);
                    assert(before.targets@[j].filename@ == before.names()[j]);
                }
                assert forall|j: int| 0 <= j < self.statistics@.len() implies {
                    &&& (#[trigger] self.statistics@[j]).max_size_number <= self.sizes@.len()
                    &&& self.statistics@[j].measures@.len() == self.statistics@[j].max_size_number
                } by {
                    if j != k {
                        assert(self.statistics@[j] == before.statistics@[j]);
                    }
                }
                assert forall|j: int| k + 1 <= j < n implies #[trigger] self.samples()[j] == mid[j] by {
                    assert(self.statistics@[j] == before.statistics@[j]);
                    assert(before.samples()[j] == mid[j]);
                    assert(self.samples()[j] == before.samples()[j]);
                }
                assert forall|j: int, i: int| 0 <= j < k + 1 && 0 <= i < maxs[j] implies {
                    &&& (#[trigger] self.samples()[j][i]).len() == mid[j][i].len() + measures_amount
                    &&& self.samples()[j][i].subrange(0, mid[j][i].len() as int) == mid[j][i]
                } by {
                    if j == k {
                        assert(maxs[j] == before.statistics@[k as int].max_size_number);
                        assert(i < stat.measures@.len());
                        assert(self.samples()[j][i] == stat.measures@[i]@);
                        assert(before.samples()[k as int] == mid[k as int]);
                        assert(before.samples()[k as int][i] == before.statistics@[k as int].measures@[i]@);
                        assert(mid[j][i] == before.statistics@[k as int].measures@[i]@);
                    } else {
                        assert(self.statistics@[j] == before.statistics@[j]);
                        assert(self.samples()[j] == before.samples()[j]);
                    }
                }
            }
            k = k + 1;
        }
        proof {
            assert forall|j: int| 0 <= j < self.samples().len() implies (#[trigger] self.samples()[j]).len()
                == maxs[j] by {
                assert(self.statistics@[j].measures@.len() == self.statistics@[j].max_size_number);
            }
        }
    }


    /// The number of targets.
    pub fn targets_len(&self) -> (r: usize)
        requires
            self.wf(),
        ensures
            r == self.names().len(),
    {
        self.targets.len()
    }

    /// The `k`-th target, in the order they were added.
    pub fn target(&self, k: usize) -> (r: &MeasurableAlgorithm<GenArgT, AlgArgT, AlgResT>)
        requires
            self.wf(),
            k < self.names().len(),
        ensures
            r.filename@ == self.names()[k as int],
    {
        &self.targets[k]
    }

    /// The samples of the `k`-th target.
    pub fn statistic(&self, k: usize) -> (r: &AlgorithmTimeStatistic)
        requires
            self.wf(),
            k < self.names().len(),
        ensures
            r.max_size_number == self.max_sizes()[k as int],
            r.measures@.map_values(|v: Vec<u128>| v@) == self.samples()[k as int],
            r.measures@.len() == r.max_size_number,
            r.max_size_number <= self.sizes_view().len(),
    {
        &self.statistics[k]
    }

    pub fn sizes(&self) -> (r: &Vec<GenArgT>)
        ensures
            r@ == self.sizes_view(),
    {
        &self.sizes
    }

    pub fn description(&self) -> (r: &String)
        ensures
            r@ == self.labels().0,
    {
        &self.description
    }

    pub fn filename(&self) -> (r: &String)
        ensures
            r@ == self.labels().1,
    {
        &self.filename
    }

    pub fn x_label(&self) -> (r: &String)
        ensures
            r@ == self.labels().2,
    {
        &self.x_label
    }

    pub fn y_label(&self) -> (r: &String)
        ensures
            r@ == self.labels().3,
    {
        &self.y_label
    }

    pub fn iterations_amount(&self) -> (r: u64)
        ensures
            r == self.iterations(),
    {
        self.iterations_amount
    }

    /// The deadline, in nanoseconds.
    pub fn threshold(&self) -> (r: u128)
        ensures
            r == self.threshold_nanos(),
    {
        self.threshold
    }

    pub fn timer(&self) -> (r: TimerType)
        ensures
            r == self.timer_kind(),
    {
        self.timer
    }

    /// Whether the sizing phase uses the deadline.
    pub fn threshold_used(&self) -> (r: bool)
        ensures
            r == self.uses_threshold(),
    {
        self.use_threshold
    }

    /// The record of the pack for the plotting side; targets in the order they were added.
    pub fn describe(&self) -> (r: PackMeasuresDescription<GenArgT>) where GenArgT: Clone
        requires
            self.wf(),
        ensures
            r.description@ == self.labels().0,
            r.filename@ == self.labels().1,
            r.x_label@ == self.labels().2,
            r.y_label@ == self.labels().3,
            r.sizes@.len() == self.sizes_view().len(),
            forall|i: int| 0 <= i < r.sizes@.len() ==> cloned::<GenArgT>(
                self.sizes_view()[i],
                #[trigger] r.sizes@[i],
            ),
            r.iterations_amount == self.iterations(),
            r.threshold_nanos == self.threshold_nanos(),
            r.target_descriptions@.len() == self.names().len(),
            forall|k: int| 0 <= k < self.names().len() ==> {
                &&& (#[trigger] r.target_descriptions@[k]).filename@ == self.names()[k]
                &&& r.target_descriptions@[k].description@ == self.descriptions()[k]
                &&& r.target_descriptions@[k].max_size_number == self.max_sizes()[k]
            },
    {
        let mut targets: Vec<TargetDescription> = Vec::new();
        let mut k: usize = 0;
        while k < self.targets.len()
            invariant
                self.wf(),
                0 <= k <= self.targets@.len(),
                targets@.len() == k,
                forall|j: int| 0 <= j < k ==> {
                    &&& (#[trigger] targets@[j]).filename@ == self.names()[j]
                    &&& targets@[j].description@ == self.targets@[j].description@
                    &&& targets@[j].max_size_number == self.max_sizes()[j]
                },
            decreases self.targets@.len() - k,
        {
            targets.push(
                TargetDescription {
                    filename: self.targets[k].filename.clone(),
                    description: self.targets[k].description.clone(),
                    max_size_number: self.statistics[k].max_size_number,
                },
            );
            k = k + 1;
        }
        PackMeasuresDescription {
            description: self.description.clone(),
            filename: self.filename.clone(),
            sizes: self.sizes.clone(),
            x_label: self.x_label.clone(),
            y_label: self.y_label.clone(),
            iterations_amount: self.iterations_amount,
            threshold_nanos: self.threshold,
            target_descriptions: targets,
        }
    }
}

/// `amount` rounds of one target, each adding one average duration to every size it
/// reached.
fn measure_target<GenArgT, AlgArgT, AlgResT, TimerT: Timer>(
    alg: &mut MeasurableAlgorithm<GenArgT, AlgArgT, AlgResT>,
    stat: &mut AlgorithmTimeStatistic,
    sizes: &Vec<GenArgT>,
    iterations: u64,
    amount: u64,
)
    requires
        iterations > 0,
        old(stat).max_size_number <= sizes@.len(),
        old(stat).measures@.len() == old(stat).max_size_number,
    ensures
        final(alg).filename == old(alg).filename,
        final(alg).description == old(alg).description,
        final(stat).max_size_number == old(stat).max_size_number,
        final(stat).measures@.len() == old(stat).measures@.len(),
        forall|i: int| 0 <= i < final(stat).measures@.len() ==> {
            &&& (#[trigger] final(stat).measures@[i])@.len() == old(stat).measures@[i]@.len() + amount
            &&& final(stat).measures@[i]@.subrange(0, old(stat).measures@[i]@.len() as int)
                == old(stat).measures@[i]@
        },
{
    let mut round: u64 = 0;
    while round < amount
        invariant
            0 <= round <= amount,
            iterations > 0,
            alg.filename == old(alg).filename,
            alg.description == old(alg).description,
            stat.max_size_number == old(stat).max_size_number,
            stat.max_size_number <= sizes@.len(),
            stat.measures@.len() == old(stat).measures@.len(),
            stat.measures@.len() == stat.max_size_number,
            forall|i: int| 0 <= i < stat.measures@.len() ==> {
                &&& (#[trigger] stat.measures@[i])@.len() == old(stat).measures@[i]@.len() + round
                &&& stat.measures@[i]@.subrange(0, old(stat).measures@[i]@.len() as int)
                    == old(stat).measures@[i]@
            },
        decreases amount - round,
    {
        let durations = alg.measure::<TimerT>(sizes, stat.max_size_number, iterations);
        let ghost before = stat.measures@;
        append_round(&mut stat.measures, &durations);
        proof {
            assert forall|i: int| 0 <= i < stat.measures@.len() implies {
                &&& (#[trigger] stat.measures@[i])@.len() == old(stat).measures@[i]@.len() + round + 1
                &&& stat.measures@[i]@.subrange(0, old(stat).measures@[i]@.len() as int)
                    == old(stat).measures@[i]@
            } by {
                assert(stat.measures@[i]@ == before[i]@.push(durations@[i]));
                assert(stat.measures@[i]@.subrange(0, old(stat).measures@[i]@.len() as int)
                    =~= before[i]@.subrange(0, old(stat).measures@[i]@.len() as int));
            }
        }
        round = round + 1;
    }
}

} // verus!
