use algobench::config::GraphOutputType;
use algobench::deadline::{poll_decision, ChildState, PollAction};
use algobench::measures::{
    average_duration, Algorithm, DeadlineEnforcer, InputGenerator, LoggedEnforcer, MeasurableAlgorithm,
    MutatingRoutine, PackMeasures, ReadingRoutine, SizeSearch,
};
use algobench::timer::TimerType;

struct Sum;

impl ReadingRoutine<Vec<u64>, u64> for Sum {
    fn run(&self, input: &Vec<u64>) -> u64 {
        input.iter().sum()
    }
}

struct SortInPlace;

impl MutatingRoutine<Vec<u64>, ()> for SortInPlace {
    fn run(&self, input: &mut Vec<u64>) {
        input.sort();
    }
}

struct Countdown {
    calls: u64,
}

impl InputGenerator<u64, Vec<u64>> for Countdown {
    fn generate(&mut self, size: &u64) -> Vec<u64> {
        self.calls += 1;
        (0..*size).rev().collect()
    }
}

/// Finishes in time exactly when the input is shorter than `limit`.
struct LengthLimit {
    limit: usize,
    probes: usize,
}

impl DeadlineEnforcer<Vec<u64>, u64> for LengthLimit {
    fn completes_within(
        &mut self,
        _algorithm: &Algorithm<Vec<u64>, u64>,
        data: Vec<u64>,
        _threshold_nanos: u128,
    ) -> bool {
        self.probes += 1;
        data.len() < self.limit
    }
}

impl DeadlineEnforcer<Vec<u64>, ()> for LengthLimit {
    fn completes_within(
        &mut self,
        _algorithm: &Algorithm<Vec<u64>, ()>,
        data: Vec<u64>,
        _threshold_nanos: u128,
    ) -> bool {
        self.probes += 1;
        data.len() < self.limit
    }
}

fn summing(name: &str) -> MeasurableAlgorithm<u64, Vec<u64>, u64> {
    MeasurableAlgorithm::new(name, Box::new(Sum), Box::new(Countdown { calls: 0 }))
}

#[test]
fn rounds_accumulate_per_reached_size() {
    let mut pack = PackMeasures::new("pack", vec![1, 2, 3]).with_iterations_amount(2);
    pack.add_target(summing("sum"));
    let mut enforcer = LoggedEnforcer::new(LengthLimit { limit: 0, probes: 0 });
    pack.measure(2, &mut enforcer);
    pack.measure(3, &mut enforcer);
    assert_eq!(enforcer.inner().probes, 0);
    let stat = pack.statistic(0);
    assert_eq!(stat.max_size_number, 3);
    assert_eq!(stat.measures.len(), 3);
    for column in stat.measures.iter() {
        assert_eq!(column.len(), 5);
    }
}

#[test]
fn deadline_discovery_stops_at_first_failure() {
    let mut pack = PackMeasures::new("pack", vec![1, 2, 3, 4, 5]).with_timer(TimerType::SystemTimer);
    pack.use_threshold(true);
    pack.add_target(summing("sum"));
    let mut enforcer = LoggedEnforcer::new(LengthLimit { limit: 3, probes: 0 });
    pack.measure(1, &mut enforcer);
    assert_eq!(enforcer.inner().probes, 3);
    let stat = pack.statistic(0);
    assert_eq!(stat.max_size_number, 2);
    assert_eq!(stat.measures.len(), 2);
    assert!(stat.measures.iter().all(|c| c.len() == 1));
    pack.measure(1, &mut enforcer);
    assert_eq!(enforcer.inner().probes, 3);
    assert!(pack.statistic(0).measures.iter().all(|c| c.len() == 2));
    pack.calculate_max_data_sizes(&mut enforcer);
    assert_eq!(enforcer.inner().probes, 6);
    let stat = pack.statistic(0);
    assert_eq!(stat.max_size_number, 2);
    assert!(stat.measures.iter().all(|c| c.is_empty()));
}

#[test]
fn sizing_without_deadline_empties_the_samples() {
    let mut pack = PackMeasures::new("pack", vec![1, 2]);
    pack.add_target(summing("sum"));
    let mut enforcer = LoggedEnforcer::new(LengthLimit { limit: 0, probes: 0 });
    pack.measure(2, &mut enforcer);
    assert!(pack.statistic(0).measures.iter().all(|c| c.len() == 2));
    pack.calculate_max_data_sizes(&mut enforcer);
    assert_eq!(enforcer.inner().probes, 0);
    assert_eq!(pack.statistic(0).max_size_number, 2);
    assert!(pack.statistic(0).measures.iter().all(|c| c.is_empty()));
}

#[test]
fn an_always_finishing_algorithm_reaches_the_whole_sweep() {
    let mut alg = summing("sum");
    let mut enforcer = LoggedEnforcer::new(LengthLimit { limit: usize::MAX, probes: 0 });
    let search = alg.calculate_max_data_size(&vec![1, 2, 3, 4], 10, &mut enforcer);
    assert_eq!(search.reached(), 4);
    assert_eq!(search.next_index(), None);
    assert_eq!(enforcer.inner().probes, 4);
}

#[test]
fn mutating_algorithms_are_measured_with_thread_time() {
    let alg: MeasurableAlgorithm<u64, Vec<u64>, ()> =
        MeasurableAlgorithm::new_mut("sort", Box::new(SortInPlace), Box::new(Countdown { calls: 0 }))
            .with_filename("sort_file");
    assert_eq!(alg.filename, "sort_file");
    assert_eq!(alg.description, "sort");
    let mut pack = PackMeasures::new("pack", vec![10, 100]).with_timer(TimerType::ThreadTimer);
    pack.add_target(alg);
    let mut enforcer = LoggedEnforcer::new(LengthLimit { limit: 0, probes: 0 });
    pack.measure(4, &mut enforcer);
    assert!(pack.statistic(0).measures.iter().all(|c| c.len() == 4));
}

#[test]
fn a_round_times_each_size_with_fresh_inputs() {
    let mut alg = summing("sum");
    let durations = alg.measure::<cpu_time::ProcessTime>(&vec![5, 6, 7], 2, 3);
    assert_eq!(durations.len(), 2);
    alg.set_current_data(vec![1]);
    assert_eq!(alg.current_data, Some(vec![1]));
    assert_eq!(average_duration(10, 3), 3);
}

#[test]
fn targets_are_equal_by_file_name() {
    assert!(summing("a") == summing("a"));
    assert!(summing("a") != summing("b"));
    assert!(summing("a").with_filename("c") == summing("b").with_filename("c"));
}

#[test]
fn a_target_of_the_same_name_resets_its_samples() {
    let mut pack = PackMeasures::new("pack", vec![1, 2]);
    pack.add_target(summing("a"));
    pack.add_target(summing("b"));
    let mut enforcer = LoggedEnforcer::new(LengthLimit { limit: 0, probes: 0 });
    pack.measure(1, &mut enforcer);
    pack.add_target(summing("a"));
    assert_eq!(pack.targets_len(), 2);
    assert_eq!(pack.statistic(0).max_size_number, 0);
    assert_eq!(pack.statistic(0).measures.len(), 0);
    assert_eq!(pack.statistic(1).measures.len(), 2);
}

#[test]
fn pack_settings_and_description() {
    let mut pack = PackMeasures::new("pack", vec![1u64, 2])
        .with_filename("file")
        .with_x_label("x")
        .with_y_label("y")
        .with_threshold(5);
    assert_eq!(pack.x_label(), "x");
    assert_eq!(pack.y_label(), "y");
    assert_eq!(pack.threshold(), 5);
    pack.set_threshold(9);
    assert_eq!(pack.iterations_amount(), 5);
    assert!(!pack.threshold_used());
    assert_eq!(pack.timer(), TimerType::ProcessTimer);
    pack.add_target(summing("sum").with_filename("sum_file"));
    let d = pack.describe();
    assert_eq!(d.description, "pack");
    assert_eq!(d.filename, "file");
    assert_eq!(d.sizes, vec![1, 2]);
    assert_eq!(d.threshold_nanos, 9);
    assert_eq!(d.target_descriptions.len(), 1);
    assert_eq!(d.target_descriptions[0].filename, "sum_file");
    assert_eq!(d.target_descriptions[0].description, "sum");
    assert_eq!(d.target_descriptions[0].max_size_number, 0);
    let fresh: PackMeasures<u64, Vec<u64>, u64> = PackMeasures::new("p", vec![]);
    assert_eq!(fresh.x_label(), "Аргументы функций");
    assert_eq!(fresh.threshold(), 1_000_000_000);
}

#[test]
fn size_search_records_outcomes_in_order() {
    let mut s = SizeSearch::new(3);
    assert_eq!(s.next_index(), Some(0));
    s.record(true);
    assert_eq!(s.next_index(), Some(1));
    s.record(false);
    assert_eq!(s.next_index(), None);
    assert_eq!(s.reached(), 1);
    let empty = SizeSearch::new(0);
    assert_eq!(empty.next_index(), None);
    assert_eq!(empty.reached(), 0);
}

#[test]
fn poll_decisions() {
    assert_eq!(poll_decision(ChildState::Terminated, 5, 1), PollAction::Completed);
    assert_eq!(poll_decision(ChildState::Running, 5, 1), PollAction::Kill);
    assert_eq!(poll_decision(ChildState::Running, 1, 1), PollAction::Wait);
}

#[test]
fn output_type_names() {
    assert_eq!(GraphOutputType::SVG.name(), "svg");
    assert_eq!(GraphOutputType::PDF.name(), "pdf");
    assert_eq!(GraphOutputType::PNG.name(), "png");
    assert_eq!(GraphOutputType::NONE.name(), "");
}
