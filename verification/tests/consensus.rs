//! End-to-end scenarios for the consensus engine, with a line-fitting
//! estimator over noisy two-dimensional points.

use std::cell::Cell;

use arrsac::counting::{count_inliers, inliers};
use arrsac::traits::{Estimator, Model, SprtOracle, WordRng};
use arrsac::Arrsac;

/// A small deterministic xorshift generator, good enough for tests.
#[derive(Clone)]
struct XorShift {
    state: u32,
}

impl XorShift {
    fn new(seed: u32) -> Self {
        Self { state: if seed == 0 { 0x9E3779B9 } else { seed } }
    }

    fn uniform(&mut self) -> f64 {
        self.next_u32() as f64 / 4294967296.0
    }

    fn gaussian(&mut self, sigma: f64) -> f64 {
        let mut sum = 0.0;
        for _ in 0..12 {
            sum += self.uniform();
        }
        (sum - 6.0) * sigma
    }
}

impl WordRng for XorShift {
    fn next_u32(&mut self) -> u32 {
        let mut x = self.state;
        x ^= x << 13;
        x ^= x >> 17;
        x ^= x << 5;
        self.state = x;
        x
    }
}

/// The floating-point arithmetic of the sequential test, with the
/// customary default constants.
#[derive(Clone, Copy)]
struct Probabilities {
    likelihood_ratio_threshold: f32,
    initial_epsilon: f32,
    initial_delta: f32,
}

impl Probabilities {
    fn standard() -> Self {
        Self { likelihood_ratio_threshold: 1e1, initial_epsilon: 0.05, initial_delta: 0.01 }
    }
}

#[derive(Clone, Copy)]
struct Ratios {
    epsilon: f32,
    delta: f32,
    positive: f32,
    negative: f32,
}

fn derive_ratios(epsilon: f32, delta: f32) -> Ratios {
    Ratios { epsilon, delta, positive: delta / epsilon, negative: (1.0 - delta) / (1.0 - epsilon) }
}

impl SprtOracle for Probabilities {
    type Ratios = Ratios;
    type Likelihood = f32;

    fn initial_ratios(&self) -> Ratios {
        derive_ratios(self.initial_epsilon, self.initial_delta)
    }

    fn initial_inlier_floor(&self, prefix: usize) -> usize {
        (self.initial_epsilon * prefix as f32) as usize
    }

    fn accept_update(&self, ratios: Ratios, inliers: usize, prefix: usize) -> Ratios {
        let epsilon = inliers as f32 / prefix as f32;
        let mut delta = ratios.delta;
        if delta > epsilon * 0.75 {
            delta = epsilon * 0.75;
        }
        derive_ratios(epsilon, delta)
    }

    fn reject_update(
        &self,
        ratios: Ratios,
        total_inliers: usize,
        estimations: usize,
        prefix: usize,
    ) -> Ratios {
        let delta = total_inliers as f32 / (estimations * prefix) as f32;
        let mut epsilon = ratios.epsilon;
        if delta > epsilon {
            epsilon = delta * 1.25;
            if epsilon > 1.0 {
                epsilon = 1.0;
            }
        }
        derive_ratios(epsilon, delta)
    }

    fn block_update(&self, ratios: Ratios, best_count: usize, prefix: usize) -> Ratios {
        let epsilon = best_count as f32 / prefix as f32;
        let mut delta = ratios.delta;
        if delta > epsilon * 0.75 {
            delta = epsilon * 0.75;
        }
        derive_ratios(epsilon, delta)
    }

    fn likelihood_init_spec(&self) -> f32 {
        1.0
    }

    fn step_ratio_spec(&self, ratios: &Ratios, likelihood: f32, inlier: bool) -> f32 {
        likelihood * if inlier { ratios.positive } else { ratios.negative }
    }

    fn step_rejects_spec(&self, ratios: &Ratios, likelihood: f32, inlier: bool) -> bool {
        let next = self.step_ratio_spec(ratios, likelihood, inlier);
        next > self.likelihood_ratio_threshold || next.is_nan()
    }

    fn likelihood_init(&self) -> f32 {
        1.0
    }

    fn likelihood_step(&self, ratios: &Ratios, likelihood: f32, inlier: bool) -> (f32, bool) {
        let next = self.step_ratio_spec(ratios, likelihood, inlier);
        (next, self.step_rejects_spec(ratios, likelihood, inlier))
    }
}

/// A line `y = a x + b` together with the residual threshold it is judged
/// against.
#[derive(Clone, Copy, Debug)]
struct LineModel {
    a: f64,
    b: f64,
    threshold: f64,
}

impl Model<(f64, f64)> for LineModel {
    fn inlier_spec(&self, data: &(f64, f64)) -> bool {
        let (x, y) = *data;
        (y - (self.a * x + self.b)).abs() < self.threshold
    }

    fn is_inlier(&self, data: &(f64, f64)) -> bool {
        let (x, y) = *data;
        (y - (self.a * x + self.b)).abs() < self.threshold
    }
}

/// Estimates a line through each pair of sampled points.
struct LineEstimator {
    threshold: f64,
}

impl Estimator<(f64, f64)> for LineEstimator {
    type Model = LineModel;

    fn min_samples_spec(&self) -> usize {
        2
    }

    fn min_samples(&self) -> usize {
        2
    }

    fn estimate(&self, sample: &[(f64, f64)]) -> Vec<LineModel> {
        let (x0, y0) = sample[0];
        let (x1, y1) = sample[1];
        if x1 == x0 {
            return Vec::new();
        }
        let a = (y1 - y0) / (x1 - x0);
        let b = y0 - a * x0;
        vec![LineModel { a, b, threshold: self.threshold }]
    }
}

fn engine(seed: u32) -> Arrsac<XorShift, Probabilities> {
    Arrsac::new(XorShift::new(seed), Probabilities::standard())
}

/// 200 points on `y = 2 x + 1` with mild noise and no outliers.
fn clean_line_data(seed: u32) -> Vec<(f64, f64)> {
    let mut noise = XorShift::new(seed);
    let mut data = Vec::new();
    for i in 0..200 {
        let x = i as f64 * 0.5;
        data.push((x, 2.0 * x + 1.0 + noise.gaussian(0.01)));
    }
    data
}

/// 100 points on `y = -x + 3` with mild noise, interleaved with 100
/// uniform outliers over the square from -10 to 10.
fn contaminated_line_data(seed: u32) -> Vec<(f64, f64)> {
    let mut noise = XorShift::new(seed);
    let mut data = Vec::new();
    for i in 0..200usize {
        if i % 2 == 0 {
            let x = -10.0 + (i / 2) as f64 * 0.2;
            data.push((x, -x + 3.0 + noise.gaussian(0.01)));
        } else {
            data.push((noise.uniform() * 20.0 - 10.0, noise.uniform() * 20.0 - 10.0));
        }
    }
    data
}

#[test]
fn clean_line_is_recovered_with_every_point_an_inlier() {
    let data = clean_line_data(11);
    let estimator = LineEstimator { threshold: 0.1 };
    let mut engine = engine(42);
    let (model, positions) =
        engine.model_inliers(&estimator, &data).expect("a clean line must be found");
    // The winner is fit from a minimal sample and never refined, so the
    // slope is pinned tightly by the need to cover both ends of the long
    // dataset while the intercept inherits the noise of the sampled pair.
    assert!((model.a - 2.0).abs() < 1e-2, "slope {}", model.a);
    assert!((model.b - 1.0).abs() < 5e-2, "intercept {}", model.b);
    assert_eq!(positions, (0..200).collect::<Vec<_>>());
    assert_eq!(engine.max_candidate_hypotheses, 50);
    assert_eq!(engine.block_size, 100);
}

#[test]
fn contaminated_line_recovers_most_inliers_and_few_outliers() {
    let data = contaminated_line_data(5);
    let estimator = LineEstimator { threshold: 0.1 };
    let mut engine = engine(42);
    let (_, positions) =
        engine.model_inliers(&estimator, &data).expect("the line must be found");
    let recovered = positions.iter().filter(|&&ix| ix % 2 == 0).count();
    let strays = positions.iter().filter(|&&ix| ix % 2 == 1).count();
    assert!(recovered >= 95, "only {recovered} of 100 inliers recovered");
    assert!(strays <= 5, "{strays} outliers crept in");
}

#[test]
fn too_few_observations_give_no_result() {
    let data = vec![(0.0, 1.0)];
    let estimator = LineEstimator { threshold: 0.1 };
    assert!(engine(1).model_inliers(&estimator, &data).is_none());
    assert!(engine(1).model(&estimator, &data).is_none());
}

#[test]
fn empty_dataset_gives_no_result() {
    let data: Vec<(f64, f64)> = Vec::new();
    let estimator = LineEstimator { threshold: 0.1 };
    assert!(engine(1).model_inliers(&estimator, &data).is_none());
}

#[test]
fn estimator_that_produces_no_models_gives_no_result() {
    // Every observation shares one x coordinate, so the estimator can
    // never turn a sample into a line and the pool stays empty.
    let mut data = Vec::new();
    for i in 0..50 {
        data.push((1.0, i as f64));
    }
    let estimator = LineEstimator { threshold: 0.1 };
    let mut engine = engine(4);
    assert!(engine.model_inliers(&estimator, &data).is_none());
}

#[test]
fn dataset_without_collinear_triples_gives_no_result() {
    // Points on a parabola: no line passes within the threshold of three
    // of them, so no producible model can gather the required support.
    let mut data = Vec::new();
    for i in 0..500 {
        let x = i as f64;
        data.push((x, x * x));
    }
    let estimator = LineEstimator { threshold: 1e-6 };
    let mut engine = engine(9);
    assert!(engine.model_inliers(&estimator, &data).is_none());
}

#[test]
fn tight_configuration_still_terminates_and_finds_the_line() {
    let mut noise = XorShift::new(77);
    let mut data = Vec::new();
    for i in 0..400usize {
        if i % 10 < 7 {
            let x = i as f64 * 0.1;
            data.push((x, 0.5 * x - 2.0 + noise.gaussian(0.01)));
        } else {
            data.push((noise.uniform() * 40.0, noise.uniform() * 40.0 - 20.0));
        }
    }
    let estimator = LineEstimator { threshold: 0.1 };
    let mut engine = engine(3).max_candidate_hypotheses(16).block_size(20);
    let (model, positions) =
        engine.model_inliers(&estimator, &data).expect("the line must be found");
    // The tight pool halves quickly, so evaluation can stop after a few
    // blocks: a model is still owed, though with less of the support a
    // roomier configuration would gather.
    assert!((model.a - 0.5).abs() < 0.05, "slope {}", model.a);
    assert!(positions.len() >= 80, "only {} inliers", positions.len());
    assert_eq!(engine.max_candidate_hypotheses, 16);
    assert_eq!(engine.block_size, 20);
}

fn run_contaminated(seed: u32) -> (u64, u64, Vec<usize>) {
    let data = contaminated_line_data(5);
    let estimator = LineEstimator { threshold: 0.1 };
    let mut engine = engine(seed);
    let (model, positions) =
        engine.model_inliers(&estimator, &data).expect("the line must be found");
    (model.a.to_bits(), model.b.to_bits(), positions)
}

#[test]
fn model_agrees_with_model_inliers() {
    let data = contaminated_line_data(5);
    let estimator = LineEstimator { threshold: 0.1 };
    let just_model = engine(0xBEEF).model(&estimator, &data).expect("found");
    let (with_positions, _) =
        engine(0xBEEF).model_inliers(&estimator, &data).expect("found");
    assert_eq!(just_model.a.to_bits(), with_positions.a.to_bits());
    assert_eq!(just_model.b.to_bits(), with_positions.b.to_bits());
}

#[test]
fn identical_seeds_give_bit_identical_results() {
    let first = run_contaminated(0xDEADBEEF);
    let second = run_contaminated(0xDEADBEEF);
    assert_eq!(first.0, second.0);
    assert_eq!(first.1, second.1);
    assert_eq!(first.2, second.2);
}

#[test]
fn returned_positions_are_strictly_increasing_in_range_and_supported() {
    let data = contaminated_line_data(5);
    let estimator = LineEstimator { threshold: 0.1 };
    let mut engine = engine(123);
    let (model, positions) =
        engine.model_inliers(&estimator, &data).expect("the line must be found");
    assert!(positions.len() > 2, "support must exceed the minimal sample");
    for w in positions.windows(2) {
        assert!(w[0] < w[1]);
    }
    for &ix in &positions {
        assert!(ix < data.len());
        assert!(model.is_inlier(&data[ix]));
    }
    // The returned enumeration is complete: it agrees with a direct scan.
    assert_eq!(positions, inliers(&model, &data));
}

#[test]
fn shuffling_an_all_outlier_tail_changes_nothing() {
    // All the line's inliers sit in the first block; the far-away tail
    // supports no candidate the engine can produce, so permuting it must
    // not change the outcome.
    let mut noise = XorShift::new(21);
    let mut prefix = Vec::new();
    for i in 0..100 {
        let x = i as f64 * 0.1;
        prefix.push((x, 2.0 * x + 1.0 + noise.gaussian(0.01)));
    }
    let mut tail = Vec::new();
    for i in 0..100usize {
        let x = 1000.0 + i as f64;
        tail.push((x, x * x));
    }
    let estimator = LineEstimator { threshold: 0.1 };

    let mut straight = prefix.clone();
    straight.extend(tail.iter().copied());
    let mut reversed = prefix.clone();
    reversed.extend(tail.iter().rev().copied());

    let mut first_engine = engine(0xC0FFEE);
    let first = first_engine.model_inliers(&estimator, &straight).expect("found");
    let mut second_engine = engine(0xC0FFEE);
    let second = second_engine.model_inliers(&estimator, &reversed).expect("found");
    assert_eq!(first.0.a.to_bits(), second.0.a.to_bits());
    assert_eq!(first.0.b.to_bits(), second.0.b.to_bits());
    assert_eq!(first.1, second.1);
}

#[test]
fn whole_dataset_draws_fill_the_scratch_buffer_and_subset_draws_spend_it() {
    let data = clean_line_data(11);
    let estimator = LineEstimator { threshold: 0.1 };
    let mut engine = engine(8);
    engine.generate_random_hypotheses(&estimator, &data);
    assert_eq!(engine.random_samples.len(), 2);
    assert!(engine.random_samples[0] != engine.random_samples[1]);
    assert!(engine.random_samples.iter().all(|&ix| (ix as usize) < data.len()));
    let subset: Vec<usize> = (0..data.len()).collect();
    engine.generate_random_hypotheses_subset(&estimator, &data, &subset);
    assert!(engine.random_samples.is_empty());
}

#[test]
fn counting_helpers_agree_with_a_hand_count() {
    let model = LineModel { a: 0.0, b: 0.0, threshold: 0.5 };
    let data = [(0.0, 0.0), (1.0, 1.0), (2.0, 0.2), (3.0, -0.4), (4.0, 0.5)];
    assert_eq!(count_inliers(&model, &data, 5), 3);
    assert_eq!(count_inliers(&model, &data, 2), 1);
    assert_eq!(count_inliers(&model, &data, 0), 0);
    assert_eq!(inliers(&model, &data), vec![0, 2, 3]);
}

#[test]
fn builders_override_the_defaults() {
    let engine = engine(1);
    assert_eq!(engine.max_candidate_hypotheses, 50);
    assert_eq!(engine.block_size, 100);
    let engine = engine.max_candidate_hypotheses(16).block_size(20);
    assert_eq!(engine.max_candidate_hypotheses, 16);
    assert_eq!(engine.block_size, 20);
}

/// The standard arithmetic with an assertion after every update: the
/// probability estimates stay ordered and inside the unit interval, and an
/// update that raises the good-model estimate immediately caps the
/// bad-model estimate at three quarters of it.
struct CheckedProbabilities {
    inner: Probabilities,
}

impl CheckedProbabilities {
    fn check_always(ratios: &Ratios) {
        assert!(0.0 <= ratios.delta && ratios.delta <= 1.0, "delta {}", ratios.delta);
        assert!(ratios.delta <= ratios.epsilon, "delta above epsilon");
        assert!(0.0 < ratios.epsilon && ratios.epsilon <= 1.0, "epsilon {}", ratios.epsilon);
    }

    fn check_capped(ratios: &Ratios) {
        Self::check_always(ratios);
        assert!(
            ratios.delta <= ratios.epsilon * 0.75 * (1.0 + 1e-6),
            "delta {} above three quarters of epsilon {}",
            ratios.delta,
            ratios.epsilon
        );
    }
}

impl SprtOracle for CheckedProbabilities {
    type Ratios = Ratios;
    type Likelihood = f32;

    fn initial_ratios(&self) -> Ratios {
        let ratios = self.inner.initial_ratios();
        Self::check_always(&ratios);
        ratios
    }

    fn initial_inlier_floor(&self, prefix: usize) -> usize {
        self.inner.initial_inlier_floor(prefix)
    }

    fn accept_update(&self, ratios: Ratios, inliers: usize, prefix: usize) -> Ratios {
        let ratios = self.inner.accept_update(ratios, inliers, prefix);
        Self::check_capped(&ratios);
        ratios
    }

    fn reject_update(
        &self,
        ratios: Ratios,
        total_inliers: usize,
        estimations: usize,
        prefix: usize,
    ) -> Ratios {
        let ratios = self.inner.reject_update(ratios, total_inliers, estimations, prefix);
        Self::check_always(&ratios);
        ratios
    }

    fn block_update(&self, ratios: Ratios, best_count: usize, prefix: usize) -> Ratios {
        let ratios = self.inner.block_update(ratios, best_count, prefix);
        Self::check_capped(&ratios);
        ratios
    }

    fn likelihood_init_spec(&self) -> f32 {
        self.inner.likelihood_init_spec()
    }

    fn likelihood_init(&self) -> f32 {
        self.inner.likelihood_init()
    }

    fn step_ratio_spec(&self, ratios: &Ratios, likelihood: f32, inlier: bool) -> f32 {
        self.inner.step_ratio_spec(ratios, likelihood, inlier)
    }

    fn step_rejects_spec(&self, ratios: &Ratios, likelihood: f32, inlier: bool) -> bool {
        self.inner.step_rejects_spec(ratios, likelihood, inlier)
    }

    fn likelihood_step(&self, ratios: &Ratios, likelihood: f32, inlier: bool) -> (f32, bool) {
        self.inner.likelihood_step(ratios, likelihood, inlier)
    }
}

#[test]
fn probability_estimates_stay_ordered_through_a_whole_run() {
    let data = contaminated_line_data(5);
    let estimator = LineEstimator { threshold: 0.1 };
    let mut engine =
        Arrsac::new(XorShift::new(0xDEADBEEF), CheckedProbabilities { inner: Probabilities::standard() });
    let result = engine.model_inliers(&estimator, &data);
    assert!(result.is_some());
}

/// A model whose inlier answer is fixed, counting how often it is asked.
struct CountingModel {
    answer: bool,
    asked: Cell<usize>,
}

impl Model<u8> for CountingModel {
    fn inlier_spec(&self, _data: &u8) -> bool {
        self.answer
    }

    fn is_inlier(&self, _data: &u8) -> bool {
        self.asked.set(self.asked.get() + 1);
        self.answer
    }
}

#[test]
fn sequential_test_rejects_at_the_known_crossing_and_stops_looking() {
    // Each outlier doubles the likelihood ratio; with a threshold of ten
    // the fourth observation crosses it, so the model must be rejected
    // there and no later observation may be looked at.
    let engine = engine(1);
    let data = [0u8; 20];
    let model = CountingModel { answer: false, asked: Cell::new(0) };
    let ratios = Ratios { epsilon: 0.5, delta: 0.25, positive: 0.5, negative: 2.0 };
    let verdict = engine.asprt(&data, 20, &model, &ratios, 2);
    assert!(verdict.is_none());
    assert_eq!(model.asked.get(), 4);
}

#[test]
fn sequential_test_accepts_with_the_exact_inlier_count() {
    // Each inlier halves the ratio, which therefore never crosses the
    // threshold: the whole prefix is examined and counted.
    let engine = engine(1);
    let data = [0u8; 20];
    let model = CountingModel { answer: true, asked: Cell::new(0) };
    let ratios = Ratios { epsilon: 0.5, delta: 0.25, positive: 0.5, negative: 2.0 };
    assert_eq!(engine.asprt(&data, 12, &model, &ratios, 2), Some(12));
    assert_eq!(model.asked.get(), 12);
    let below = CountingModel { answer: true, asked: Cell::new(0) };
    assert_eq!(engine.asprt(&data, 1, &below, &ratios, 2), None);
}
