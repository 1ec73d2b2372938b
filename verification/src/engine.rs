//! The consensus engine.

use vstd::prelude::*;

use crate::counting::{
    count_inliers, inlier_count, inlier_positions, inliers, lemma_inlier_count_le_len,
    lemma_inlier_count_prefix, lemma_inlier_count_step, lemma_inlier_positions_sound,
};
use crate::pool::sort_by_support;
use crate::traits::{Estimator, Model, SprtOracle, WordRng};

verus! {

/// The length of the evaluated prefix once `upto` observations have been
/// asked for from a dataset of `n`: whichever is smaller.
pub open spec fn eval_prefix(upto: int, n: int) -> int {
    if upto < n {
        upto
    } else {
        n
    }
}

/// The running likelihood ratio after the sequential test has examined
/// every observation of `s`: the fold of the oracle's step over the
/// models' inlier verdicts, from the oracle's initial ratio.
pub open spec fn sprt_ratio<O: SprtOracle, Data, M: Model<Data>>(
    oracle: O,
    ratios: &O::Ratios,
    m: M,
    s: Seq<Data>,
) -> O::Likelihood
    decreases s.len(),
{
    if s.len() == 0 {
        oracle.likelihood_init_spec()
    } else {
        oracle.step_ratio_spec(
            ratios,
            sprt_ratio(oracle, ratios, m, s.drop_last()),
            m.inlier_spec(&s.last()),
        )
    }
}

/// Whether the step taken at position `i` of `s` rejects the hypothesis.
pub open spec fn sprt_step_rejects<O: SprtOracle, Data, M: Model<Data>>(
    oracle: O,
    ratios: &O::Ratios,
    m: M,
    s: Seq<Data>,
    i: int,
) -> bool {
    oracle.step_rejects_spec(ratios, sprt_ratio(oracle, ratios, m, s.take(i)), m.inlier_spec(&s[i]))
}

/// Whether the sequential test rejects the hypothesis somewhere over `s`.
pub open spec fn sprt_rejects<O: SprtOracle, Data, M: Model<Data>>(
    oracle: O,
    ratios: &O::Ratios,
    m: M,
    s: Seq<Data>,
) -> bool {
    exists|i: int| 0 <= i < s.len() && #[trigger] sprt_step_rejects(oracle, ratios, m, s, i)
}

/// Extending the examined prefix by one observation advances the running
/// ratio by exactly one oracle step.
proof fn lemma_sprt_ratio_step<O: SprtOracle, Data, M: Model<Data>>(
    oracle: O,
    ratios: &O::Ratios,
    m: M,
    s: Seq<Data>,
    i: int,
)
    requires
        0 <= i < s.len(),
    ensures
        sprt_ratio(oracle, ratios, m, s.take(i + 1)) == oracle.step_ratio_spec(
            ratios,
            sprt_ratio(oracle, ratios, m, s.take(i)),
            m.inlier_spec(&s[i]),
        ),
{
    assert(s.take(i + 1).drop_last() =~= s.take(i));
    assert(s.take(i + 1).last() == s[i]);
}

/// How many words the sampler will draw for one index before it stops
/// trusting the word source and falls back to the smallest index not yet
/// drawn. Far beyond anything a working source needs: a draw is rejected
/// only by the bias threshold (rare) or by a duplicate index.
const REJECTION_ATTEMPTS: usize = 10000;

/// A sequence of pairwise distinct values that holds every value below
/// `c` has at least `c` elements.
proof fn lemma_distinct_cover(s: Seq<u32>, c: int)
    requires
        0 <= c <= u32::MAX + 1,
        forall|i: int, j: int| 0 <= i < j < s.len() ==> s[i] != s[j],
        forall|k: int| 0 <= k < c ==> s.contains(#[trigger] (k as u32)),
    ensures
        c <= s.len(),
    decreases c,
{
    if c > 0 {
        let idx = choose|i: int| 0 <= i < s.len() && s[i] == (c - 1) as u32;
        let rest = s.remove(idx);
        assert forall|i: int, j: int| 0 <= i < j < rest.len() implies rest[i] != rest[j] by {
            assert(rest[i] == if i < idx {
                s[i]
            } else {
                s[i + 1]
            });
            assert(rest[j] == if j < idx {
                s[j]
            } else {
                s[j + 1]
            });
        }
        assert forall|k: int| 0 <= k < c - 1 implies rest.contains(#[trigger] (k as u32)) by {
            let i = choose|i: int| 0 <= i < s.len() && s[i] == k as u32;
            assert(i != idx);
            if i < idx {
                assert(rest[i] == s[i]);
            } else {
                assert(rest[i - 1] == s[i]);
            }
        }
        lemma_distinct_cover(rest, c - 1);
    }
}

/// The adaptive real-time random sample consensus engine.
///
/// `R` supplies random 32-bit words and `O` the floating-point arithmetic
/// of the sequential probability ratio test; both are the caller's. The
/// configuration is plain: how many candidate hypotheses each round may
/// generate, and how many observations a block of evaluation data holds.
///
/// Shuffle the observations before handing them to the engine: it samples
/// the data as given and a sorted dataset biases the result towards its
/// beginning.
pub struct Arrsac<R, O> {
    /// Number of hypotheses generated for each block of data evaluated.
    pub max_candidate_hypotheses: usize,
    /// Number of data points evaluated before more hypotheses are
    /// generated.
    pub block_size: usize,
    /// The caller's random word source.
    pub rng: R,
    /// The caller's probability arithmetic.
    pub oracle: O,
    /// Scratch buffer holding the most recently drawn minimal sample.
    pub random_samples: Vec<u32>,
}

/// Whether `v` holds the value `x`.
fn contains_u32(v: &Vec<u32>, x: u32) -> (r: bool)
    ensures
        r == v@.contains(x),
{
    let mut i: usize = 0;
    while i < v.len()
        invariant
            i <= v@.len(),
            forall|j: int| 0 <= j < i ==> v@[j] != x,
        decreases v@.len() - i,
    {
        if v[i] == x {
            return true;
        }
        i = i + 1;
    }
    false
}

impl<R: WordRng, O: SprtOracle> Arrsac<R, O> {
    /// A new engine around the given word source and probability
    /// arithmetic, with the default pool cap of fifty hypotheses and the
    /// default block of one hundred observations.
    pub fn new(rng: R, oracle: O) -> (r: Self)
        ensures
            r.max_candidate_hypotheses == 50,
            r.block_size == 100,
            r.rng == rng,
            r.oracle == oracle,
            r.random_samples@.len() == 0,
    {
        Self { max_candidate_hypotheses: 50, block_size: 100, rng, oracle, random_samples: Vec::new() }
    }

    /// Number of hypotheses that will be generated for each block of data
    /// evaluated.
    pub fn max_candidate_hypotheses(self, max_candidate_hypotheses: usize) -> (r: Self)
        ensures
            r.max_candidate_hypotheses == max_candidate_hypotheses,
            r.block_size == self.block_size,
            r.rng == self.rng,
            r.oracle == self.oracle,
            r.random_samples == self.random_samples,
    {
        Self { max_candidate_hypotheses, ..self }
    }

    /// Number of data points evaluated before more hypotheses are
    /// generated.
    pub fn block_size(self, block_size: usize) -> (r: Self)
        ensures
            r.block_size == block_size,
            r.max_candidate_hypotheses == self.max_candidate_hypotheses,
            r.rng == self.rng,
            r.oracle == self.oracle,
            r.random_samples == self.random_samples,
    {
        Self { block_size, ..self }
    }

    /// Fills the scratch buffer with `num` distinct indices drawn uniformly
    /// from the range below `len`, by rejection sampling over a scaled
    /// 32-bit multiplication.
    ///
    /// Each candidate word is accepted only above the bias threshold, so
    /// every index below `len` is drawn with the same probability; a
    /// candidate already in the buffer is drawn again. Should the word
    /// source fail to produce an acceptable word within a generous attempt
    /// budget, the smallest index not yet drawn is taken instead, so the
    /// call terminates whatever the source does.
    pub fn populate_samples(&mut self, num: usize, len: usize)
        requires
            num <= len,
            1 <= len,
            len <= u32::MAX,
        ensures
            final(self).random_samples@.len() == num,
            forall|i: int|
                0 <= i < num ==> (#[trigger] final(self).random_samples@[i]) < len,
            forall|i: int, j: int|
                0 <= i < j < num ==> final(self).random_samples@[i]
                    != final(self).random_samples@[j],
            final(self).max_candidate_hypotheses == old(self).max_candidate_hypotheses,
            final(self).block_size == old(self).block_size,
            final(self).oracle == old(self).oracle,
    {
        let ghost cfg_max = self.max_candidate_hypotheses;
        let ghost cfg_block = self.block_size;
        let ghost cfg_oracle = self.oracle;
        let len32: u32 = len as u32;
        let threshold: u32 = ((u32::MAX - len32) + 1) % len32;
        self.random_samples.clear();
        let mut drawn: usize = 0;
        while drawn < num
            invariant
                drawn <= num,
                num <= len,
                1 <= len <= u32::MAX,
                len32 == len,
                self.random_samples@.len() == drawn,
                forall|i: int|
                    0 <= i < drawn ==> (#[trigger] self.random_samples@[i]) < len,
                forall|i: int, j: int|
                    0 <= i < j < drawn ==> self.random_samples@[i] != self.random_samples@[j],
                self.max_candidate_hypotheses == cfg_max,
                self.block_size == cfg_block,
                self.oracle == cfg_oracle,
            decreases num - drawn,
        {
            let mut attempt: usize = 0;
            let mut accepted = false;
            while attempt < REJECTION_ATTEMPTS && !accepted
                invariant
                    attempt <= REJECTION_ATTEMPTS,
                    drawn < num,
                    num <= len,
                    1 <= len <= u32::MAX,
                    len32 == len,
                    self.random_samples@.len() == drawn + if accepted {
                        1int
                    } else {
                        0int
                    },
                    forall|i: int|
                        0 <= i < self.random_samples@.len() ==> (
                        #[trigger] self.random_samples@[i]) < len,
                    forall|i: int, j: int|
                        0 <= i < j < self.random_samples@.len() ==> self.random_samples@[i]
                            != self.random_samples@[j],
                    self.max_candidate_hypotheses == cfg_max,
                    self.block_size == cfg_block,
                    self.oracle == cfg_oracle,
                decreases REJECTION_ATTEMPTS - attempt,
            {
                let word = self.rng.next_u32();
                proof {
                    assert((word as u64) * (len32 as u64) < 0x1_0000_0000u64 * 0x1_0000_0000u64)
                        by (nonlinear_arith)
                        requires
                            word <= u32::MAX,
                            len32 <= u32::MAX,
                    ;
                }
                let mul: u64 = (word as u64) * (len32 as u64);
                #[verifier::truncate]
                let low: u32 = mul as u32;
                if low >= threshold {
                    proof {
                        assert(mul < 0x1_0000_0000u64 * (len32 as u64)) by (nonlinear_arith)
                            requires
                                mul == (word as u64) * (len32 as u64),
                                word <= u32::MAX,
                                1 <= len32,
                        ;
                        assert(mul >> 32u64 == mul / 0x1_0000_0000u64) by (bit_vector);
                        assert(mul / 0x1_0000_0000u64 < len32 as u64) by (nonlinear_arith)
                            requires
                                mul < 0x1_0000_0000u64 * (len32 as u64),
                        ;
                    }
                    let s: u32 = (mul >> 32) as u32;
                    if !contains_u32(&self.random_samples, s) {
                        self.random_samples.push(s);
                        accepted = true;
                    }
                }
                attempt = attempt + 1;
            }
            if !accepted {
                // The word source never produced an acceptable word: take
                // the smallest index not yet drawn, which the pigeonhole
                // argument shows exists below `len`.
                let mut candidate: u32 = 0;
                while contains_u32(&self.random_samples, candidate)
                    invariant
                        candidate <= len32,
                        forall|k: int|
                            0 <= k < candidate ==> self.random_samples@.contains(
                                #[trigger] (k as u32),
                            ),
                        drawn < num,
                        num <= len,
                        1 <= len <= u32::MAX,
                        len32 == len,
                        self.random_samples@.len() == drawn,
                        forall|i: int|
                            0 <= i < drawn ==> (#[trigger] self.random_samples@[i]) < len,
                        forall|i: int, j: int|
                            0 <= i < j < drawn ==> self.random_samples@[i]
                                != self.random_samples@[j],
                        self.max_candidate_hypotheses == cfg_max,
                        self.block_size == cfg_block,
                        self.oracle == cfg_oracle,
                    decreases len32 - candidate,
                {
                    proof {
                        lemma_distinct_cover(self.random_samples@, candidate as int + 1);
                    }
                    candidate = candidate + 1;
                }
                proof {
                    lemma_distinct_cover(self.random_samples@, candidate as int);
                }
                self.random_samples.push(candidate);
            }
            drawn = drawn + 1;
        }
    }

    /// Draws a minimal sample from the whole dataset and asks the estimator
    /// for candidate models. The scratch buffer is left holding exactly the
    /// drawn minimal sample: distinct positions, all within the dataset.
    pub fn generate_random_hypotheses<E, Data>(&mut self, estimator: &E, data: &[Data]) -> (models:
        Vec<E::Model>) where E: Estimator<Data>, Data: Clone
        requires
            1 <= estimator.min_samples_spec(),
            estimator.min_samples_spec() <= data@.len(),
            data@.len() <= u32::MAX,
        ensures
            final(self).random_samples@.len() == estimator.min_samples_spec(),
            forall|i: int|
                0 <= i < final(self).random_samples@.len() ==> (
                #[trigger] final(self).random_samples@[i]) < data@.len(),
            forall|i: int, j: int|
                0 <= i < j < final(self).random_samples@.len()
                    ==> final(self).random_samples@[i] != final(self).random_samples@[j],
            final(self).max_candidate_hypotheses == old(self).max_candidate_hypotheses,
            final(self).block_size == old(self).block_size,
            final(self).oracle == old(self).oracle,
    {
        let ms = estimator.min_samples();
        self.populate_samples(ms, data.len());
        let mut sample: Vec<Data> = Vec::new();
        let mut i: usize = 0;
        while i < ms
            invariant
                i <= ms,
                sample@.len() == i,
                ms <= data@.len(),
                self.random_samples@.len() == ms,
                forall|k: int| 0 <= k < ms ==> (#[trigger] self.random_samples@[k]) < data@.len(),
                forall|k: int, l: int|
                    0 <= k < l < ms ==> self.random_samples@[k] != self.random_samples@[l],
            decreases ms - i,
        {
            let ix = self.random_samples[i];
            sample.push(data[ix as usize].clone());
            i = i + 1;
        }
        estimator.estimate(sample.as_slice())
    }

    /// Draws a minimal sample from the observations named by `subset` and
    /// asks the estimator for candidate models. A subset draw spends the
    /// scratch buffer: it is left empty afterwards, unlike a draw from the
    /// whole dataset.
    pub fn generate_random_hypotheses_subset<E, Data>(
        &mut self,
        estimator: &E,
        data: &[Data],
        subset: &[usize],
    ) -> (models: Vec<E::Model>) where E: Estimator<Data>, Data: Clone
        requires
            1 <= estimator.min_samples_spec(),
            estimator.min_samples_spec() <= subset@.len(),
            subset@.len() <= u32::MAX,
            forall|k: int| 0 <= k < subset@.len() ==> (#[trigger] subset@[k]) < data@.len(),
        ensures
            final(self).random_samples@.len() == 0,
            final(self).max_candidate_hypotheses == old(self).max_candidate_hypotheses,
            final(self).block_size == old(self).block_size,
            final(self).oracle == old(self).oracle,
    {
        let ms = estimator.min_samples();
        self.populate_samples(ms, subset.len());
        let mut sample: Vec<Data> = Vec::new();
        let mut i: usize = 0;
        while i < ms
            invariant
                i <= ms,
                sample@.len() == i,
                ms <= subset@.len(),
                subset@.len() <= u32::MAX,
                forall|k: int| 0 <= k < subset@.len() ==> (#[trigger] subset@[k]) < data@.len(),
                self.random_samples@.len() == ms,
                forall|k: int| 0 <= k < ms ==> (#[trigger] self.random_samples@[k])
                    < subset@.len(),
            decreases ms - i,
        {
            let ix = self.random_samples[i];
            sample.push(data[subset[ix as usize]].clone());
            i = i + 1;
        }
        self.random_samples.clear();
        estimator.estimate(sample.as_slice())
    }

    /// The adaptive sequential probability ratio test over the first
    /// `prefix` observations.
    ///
    /// Whenever a step of the oracle's fold says the running ratio crossed
    /// the caller's threshold, the hypothesis is rejected on the spot and
    /// no further observation is looked at. The result is pinned down
    /// exactly: the hypothesis is accepted precisely when no step over the
    /// prefix rejects it and at least `minimum_samples` of the prefix are
    /// inliers, and the returned count is then the model's exact inlier
    /// count over that prefix.
    pub fn asprt<Data, M: Model<Data>>(
        &self,
        data: &[Data],
        prefix: usize,
        model: &M,
        ratios: &O::Ratios,
        minimum_samples: usize,
    ) -> (r: Option<usize>)
        requires
            prefix <= data@.len(),
        ensures
            (r is Some) <==> (!sprt_rejects(
                self.oracle,
                ratios,
                *model,
                data@.take(prefix as int),
            ) && inlier_count(*model, data@.take(prefix as int)) >= minimum_samples),
            match r {
                Some(c) => c == inlier_count(*model, data@.take(prefix as int)) && c
                    >= minimum_samples,
                None => true,
            },
    {
        let ghost p = data@.take(prefix as int);
        let mut likelihood = self.oracle.likelihood_init();
        let mut found: usize = 0;
        let mut i: usize = 0;
        proof {
            assert(data@.take(0) =~= Seq::<Data>::empty());
            assert(p.take(0) =~= Seq::<Data>::empty());
        }
        while i < prefix
            invariant
                i <= prefix,
                prefix <= data@.len(),
                p == data@.take(prefix as int),
                found == inlier_count(*model, data@.take(i as int)),
                found <= i,
                likelihood == sprt_ratio(self.oracle, ratios, *model, p.take(i as int)),
                forall|j: int|
                    0 <= j < i ==> !#[trigger] sprt_step_rejects(
                        self.oracle,
                        ratios,
                        *model,
                        p,
                        j,
                    ),
            decreases prefix - i,
        {
            let inl = model.is_inlier(&data[i]);
            proof {
                lemma_inlier_count_step(*model, data@, i as int);
                lemma_sprt_ratio_step(self.oracle, ratios, *model, p, i as int);
                assert(p[i as int] == data@[i as int]);
            }
            if inl {
                found = found + 1;
            }
            let (next, reject) = self.oracle.likelihood_step(ratios, likelihood, inl);
            likelihood = next;
            if reject {
                proof {
                    assert(sprt_step_rejects(self.oracle, ratios, *model, p, i as int));
                    assert(sprt_rejects(self.oracle, ratios, *model, p));
                }
                return None;
            }
            i = i + 1;
        }
        proof {
            assert(!sprt_rejects(self.oracle, ratios, *model, p)) by {
                if sprt_rejects(self.oracle, ratios, *model, p) {
                    let j = choose|j: int|
                        0 <= j < p.len() && #[trigger] sprt_step_rejects(
                            self.oracle,
                            ratios,
                            *model,
                            p,
                            j,
                        );
                }
            }
        }
        if found >= minimum_samples {
            Some(found)
        } else {
            None
        }
    }

    /// The initial hypothesis phase: bootstraps the pool from the first
    /// block of data.
    ///
    /// Exactly `max_candidate_hypotheses` batches of candidates are drawn,
    /// from the whole dataset at first and from the best hypothesis's
    /// inlier set once a usable one is found; each candidate faces the
    /// sequential test over the first block. Acceptances that beat the
    /// running best raise the good-model probability estimate, rejections
    /// feed the bad-model estimate. Every pooled hypothesis carries its
    /// exact inlier count over the first block, and at least
    /// `min_samples` of them.
    #[verifier::loop_isolation(false)]
    pub fn initial_hypotheses<E, Data>(&mut self, estimator: &E, data: &[Data]) -> (r: (
        Vec<(E::Model, usize)>,
        O::Ratios,
    )) where E: Estimator<Data>, Data: Clone
        requires
            1 <= estimator.min_samples_spec(),
            estimator.min_samples_spec() <= data@.len(),
            data@.len() <= u32::MAX,
        ensures
            forall|j: int|
                0 <= j < r.0@.len() ==> (#[trigger] r.0@[j]).1 == inlier_count(
                    r.0@[j].0,
                    data@.take(eval_prefix(old(self).block_size as int, data@.len() as int)),
                ) && r.0@[j].1 >= estimator.min_samples_spec(),
            final(self).max_candidate_hypotheses == old(self).max_candidate_hypotheses,
            final(self).block_size == old(self).block_size,
            final(self).oracle == old(self).oracle,
    {
        let mut hypotheses: Vec<(E::Model, usize)> = Vec::new();
        let n = data.len();
        let ms = estimator.min_samples();
        let initial_datapoints = if self.block_size < n {
            self.block_size
        } else {
            n
        };
        let ghost ip: int = eval_prefix(old(self).block_size as int, data@.len() as int);
        let mut best_inliers = self.oracle.initial_inlier_floor(initial_datapoints);
        let mut ratios = self.oracle.initial_ratios();
        let mut current_delta_estimations: usize = 0;
        let mut total_delta_inliers: usize = 0;
        let mut best_inlier_indices: Vec<usize> = Vec::new();
        let mut found_usable_hypothesis = false;
        let cap = self.max_candidate_hypotheses;
        let mut iter: usize = 0;
        while iter < cap
            invariant
                iter <= cap,
                forall|j: int|
                    0 <= j < hypotheses@.len() ==> (#[trigger] hypotheses@[j]).1 == inlier_count(
                        hypotheses@[j].0,
                        data@.take(ip),
                    ) && hypotheses@[j].1 >= ms,
                found_usable_hypothesis ==> ms <= best_inlier_indices@.len()
                    <= data@.len(),
                found_usable_hypothesis ==> forall|k: int|
                    0 <= k < best_inlier_indices@.len() ==> (#[trigger] best_inlier_indices@[k])
                        < data@.len(),
                self.max_candidate_hypotheses == old(self).max_candidate_hypotheses,
                self.block_size == old(self).block_size,
                self.oracle == old(self).oracle,
            decreases cap - iter,
        {
            let mut models: Vec<E::Model> = if found_usable_hypothesis {
                self.generate_random_hypotheses_subset(
                    estimator,
                    data,
                    best_inlier_indices.as_slice(),
                )
            } else {
                self.generate_random_hypotheses(estimator, data)
            };
            while models.len() > 0
                invariant
                    forall|j: int|
                        0 <= j < hypotheses@.len() ==> (#[trigger] hypotheses@[j]).1
                            == inlier_count(hypotheses@[j].0, data@.take(ip))
                            && hypotheses@[j].1 >= ms,
                    found_usable_hypothesis ==> ms <= best_inlier_indices@.len()
                        <= data@.len(),
                    found_usable_hypothesis ==> forall|k: int|
                        0 <= k < best_inlier_indices@.len() ==> (
                        #[trigger] best_inlier_indices@[k]) < data@.len(),
                    self.max_candidate_hypotheses == old(self).max_candidate_hypotheses,
                    self.block_size == old(self).block_size,
                    self.oracle == old(self).oracle,
                decreases models@.len(),
            {
                let model = models.remove(0);
                if let Some(inl) = self.asprt(data, initial_datapoints, &model, &ratios, ms) {
                    if inl > best_inliers {
                        best_inliers = inl;
                        ratios = self.oracle.accept_update(ratios, inl, initial_datapoints);
                        best_inlier_indices = inliers(&model, data);
                        found_usable_hypothesis = true;
                        proof {
                            lemma_inlier_count_prefix(model, data@, ip);
                            lemma_inlier_count_le_len(model, data@);
                            lemma_inlier_positions_sound(model, data@);
                        }
                    }
                    hypotheses.push((model, inl));
                } else {
                    let c = count_inliers(&model, data, initial_datapoints);
                    total_delta_inliers = total_delta_inliers.saturating_add(c);
                    current_delta_estimations = current_delta_estimations.saturating_add(1);
                    ratios = self.oracle.reject_update(
                        ratios,
                        total_delta_inliers,
                        current_delta_estimations,
                        initial_datapoints,
                    );
                }
            }
            iter = iter + 1;
        }
        (hypotheses, ratios)
    }

    /// Runs the consensus over `data` and returns the model of maximum
    /// support together with the positions of all its inliers.
    ///
    /// With fewer observations than a minimal sample there is no result.
    /// A returned model comes with the exact enumeration of its inliers
    /// over the whole dataset: the positions are strictly increasing, all
    /// in range, and there are strictly more than `min_samples` of them,
    /// the same support the best initial hypothesis had to show for the
    /// run to proceed at all. The configuration is unchanged by the run.
    #[verifier::loop_isolation(false)]
    pub fn model_inliers<E, Data>(&mut self, estimator: &E, data: &[Data]) -> (r: Option<
        (E::Model, Vec<usize>),
    >) where E: Estimator<Data>, Data: Clone
        requires
            1 <= estimator.min_samples_spec(),
            1 <= old(self).block_size,
            data@.len() <= u32::MAX,
        ensures
            final(self).max_candidate_hypotheses == old(self).max_candidate_hypotheses,
            final(self).block_size == old(self).block_size,
            final(self).oracle == old(self).oracle,
            data@.len() < estimator.min_samples_spec() ==> r is None,
            match r {
                Some((model, positions)) => {
                    &&& positions@ == inlier_positions(model, data@)
                    &&& positions@.len() == inlier_count(model, data@)
                    &&& positions@.len() > estimator.min_samples_spec()
                    &&& forall|i: int, j: int|
                        #![trigger positions@[i], positions@[j]]
                        0 <= i < j < positions@.len() ==> positions@[i] < positions@[j]
                    &&& forall|i: int|
                        0 <= i < positions@.len() ==> (#[trigger] positions@[i]) < data@.len()
                },
                None => true,
            },
    {
        let n = data.len();
        let ms = estimator.min_samples();
        if n < ms {
            return None;
        }
        let (mut hypotheses, mut ratios) = self.initial_hypotheses(estimator, data);
        let ghost ip: int = eval_prefix(old(self).block_size as int, data@.len() as int);
        let ghost presort = hypotheses@;
        sort_by_support(&mut hypotheses);
        proof {
            assert forall|j: int|
                0 <= j < hypotheses@.len() implies (#[trigger] hypotheses@[j]).1 == inlier_count(
                hypotheses@[j].0,
                data@.take(ip),
            ) && hypotheses@[j].1 >= ms by {
                let x = hypotheses@[j];
                assert(hypotheses@.contains(x));
                assert(presort.contains(x));
                let k = choose|k: int| 0 <= k < presort.len() && presort[k] == x;
            }
        }
        let cap = self.max_candidate_hypotheses;
        hypotheses.truncate(cap);
        if hypotheses.len() == 0 {
            return None;
        }
        let best_global = inliers(&hypotheses[0].0, data);
        if best_global.len() <= ms {
            return None;
        }
        let bs = self.block_size;
        let ghost orc = self.oracle;
        let mut shifted_cap = cap;
        let mut start = bs;
        #[verifier::loop_isolation(true)]
        loop
            invariant_except_break
                n == data@.len(),
                n <= u32::MAX,
                ms == estimator.min_samples_spec(),
                1 <= ms <= n,
                1 <= bs,
                1 <= hypotheses@.len(),
                forall|j: int|
                    0 <= j < hypotheses@.len() ==> (#[trigger] hypotheses@[j]).1 == inlier_count(
                        hypotheses@[j].0,
                        data@.take(eval_prefix(start as int, n as int)),
                    ) && hypotheses@[j].1 >= ms,
                self.max_candidate_hypotheses == cap,
                self.block_size == bs,
                self.oracle == orc,
            ensures
                forall|j: int|
                    0 <= j < hypotheses@.len() ==> (#[trigger] hypotheses@[j]).1 >= ms
                        && hypotheses@[j].1 <= inlier_count(hypotheses@[j].0, data@),
                self.max_candidate_hypotheses == cap,
                self.block_size == bs,
                self.oracle == orc,
            decreases n - start,
        {
            if start >= n {
                proof {
                    assert(data@.take(eval_prefix(start as int, n as int)) =~= data@);
                }
                break;
            }
            let end = start.saturating_add(bs);
            let stop = if end < n {
                end
            } else {
                n
            };
            // Score every pooled hypothesis against each observation of the
            // new block, one observation at a time.
            let mut i: usize = start;
            while i < stop
                invariant
                    start <= i <= stop,
                    1 <= hypotheses@.len(),
                    forall|j: int|
                        0 <= j < hypotheses@.len() ==> (#[trigger] hypotheses@[j]).1
                            == inlier_count(hypotheses@[j].0, data@.take(i as int))
                            && hypotheses@[j].1 >= ms,
                decreases stop - i,
            {
                let mut h: usize = 0;
                while h < hypotheses.len()
                    invariant
                        h <= hypotheses@.len(),
                        1 <= hypotheses@.len(),
                        i < stop,
                        forall|j: int|
                            0 <= j < h ==> (#[trigger] hypotheses@[j]).1 == inlier_count(
                                hypotheses@[j].0,
                                data@.take(i + 1),
                            ) && hypotheses@[j].1 >= ms,
                        forall|j: int|
                            h <= j < hypotheses@.len() ==> (#[trigger] hypotheses@[j]).1
                                == inlier_count(hypotheses@[j].0, data@.take(i as int))
                                && hypotheses@[j].1 >= ms,
                    decreases hypotheses@.len() - h,
                {
                    proof {
                        lemma_inlier_count_step(
                            hypotheses@[h as int].0,
                            data@,
                            i as int,
                        );
                        lemma_inlier_count_le_len(
                            hypotheses@[h as int].0,
                            data@.take(i as int),
                        );
                    }
                    let inl = hypotheses[h].0.is_inlier(&data[i]);
                    if inl {
                        let c = hypotheses[h].1;
                        hypotheses[h].1 = c + 1;
                    }
                    h = h + 1;
                }
                i = i + 1;
            }
            if end > n {
                proof {
                    assert(data@.take(stop as int) =~= data@);
                }
                break;
            }
            // The block was scored in full: re-estimate the probabilities
            // from the best hypothesis so far and regenerate candidates
            // from its inlier set.
            let best_count = hypotheses[0].1;
            ratios = self.oracle.block_update(ratios, best_count, end);
            let inliers_best = inliers(&hypotheses[0].0, data);
            proof {
                lemma_inlier_count_prefix(hypotheses@[0].0, data@, end as int);
                lemma_inlier_positions_sound(hypotheses@[0].0, data@);
                lemma_inlier_count_le_len(hypotheses@[0].0, data@);
            }
            let mut t: usize = 0;
            while t < cap
                invariant
                    t <= cap,
                    1 <= hypotheses@.len(),
                    forall|j: int|
                        0 <= j < hypotheses@.len() ==> (#[trigger] hypotheses@[j]).1
                            == inlier_count(hypotheses@[j].0, data@.take(end as int))
                            && hypotheses@[j].1 >= ms,
                    self.max_candidate_hypotheses == cap,
                    self.block_size == bs,
                    self.oracle == orc,
                decreases cap - t,
            {
                let mut models: Vec<E::Model> = self.generate_random_hypotheses_subset(
                    estimator,
                    data,
                    inliers_best.as_slice(),
                );
                while models.len() > 0
                    invariant
                        1 <= hypotheses@.len(),
                        forall|j: int|
                            0 <= j < hypotheses@.len() ==> (#[trigger] hypotheses@[j]).1
                                == inlier_count(hypotheses@[j].0, data@.take(end as int))
                                && hypotheses@[j].1 >= ms,
                        self.max_candidate_hypotheses == cap,
                        self.block_size == bs,
                        self.oracle == orc,
                    decreases models@.len(),
                {
                    let model = models.remove(0);
                    if let Some(accepted) = self.asprt(data, end, &model, &ratios, ms) {
                        hypotheses.push((model, accepted));
                    }
                }
                t = t + 1;
            }
            // Winnow: keep the best-supported half of the allowance.
            let ghost prewinnow = hypotheses@;
            sort_by_support(&mut hypotheses);
            proof {
                assert forall|j: int|
                    0 <= j < hypotheses@.len() implies (#[trigger] hypotheses@[j]).1
                    == inlier_count(hypotheses@[j].0, data@.take(end as int))
                    && hypotheses@[j].1 >= ms by {
                    let x = hypotheses@[j];
                    assert(hypotheses@.contains(x));
                    assert(prewinnow.contains(x));
                    let k = choose|k: int| 0 <= k < prewinnow.len() && prewinnow[k] == x;
                }
            }
            shifted_cap = shifted_cap / 2;
            hypotheses.truncate(shifted_cap);
            if hypotheses.len() <= 1 {
                proof {
                    assert forall|j: int|
                        0 <= j < hypotheses@.len() implies (#[trigger] hypotheses@[j]).1 >= ms
                        && hypotheses@[j].1 <= inlier_count(hypotheses@[j].0, data@) by {
                        lemma_inlier_count_prefix(hypotheses@[j].0, data@, end as int);
                    }
                }
                break;
            }
            start = end;
        }
        // Pick the survivor of maximum support and enumerate its inliers
        // over the whole dataset.
        if hypotheses.len() == 0 {
            return None;
        }
        let mut best_ix: usize = 0;
        let mut j: usize = 1;
        while j < hypotheses.len()
            invariant
                best_ix < hypotheses@.len(),
                1 <= j <= hypotheses@.len(),
                forall|k: int|
                    0 <= k < j ==> (#[trigger] hypotheses@[k]).1 <= hypotheses@[
                        best_ix as int].1,
            decreases hypotheses@.len() - j,
        {
            if hypotheses[j].1 >= hypotheses[best_ix].1 {
                best_ix = j;
            }
            j = j + 1;
        }
        proof {
            assert(forall|k: int|
                0 <= k < hypotheses@.len() ==> (#[trigger] hypotheses@[k]).1 <= hypotheses@[
                    best_ix as int].1);
        }
        let picked = hypotheses.remove(best_ix);
        let model = picked.0;
        proof {
            lemma_inlier_positions_sound(model, data@);
        }
        let positions = inliers(&model, data);
        // A result is owed only with support strictly beyond a minimal
        // sample, which the entry check demanded of the initial best; the
        // winner's global support is held to the same bound.
        if positions.len() <= ms {
            return None;
        }
        Some((model, positions))
    }

    /// Runs the consensus over `data` and returns just the model of
    /// maximum support, if any.
    pub fn model<E, Data>(&mut self, estimator: &E, data: &[Data]) -> (r: Option<E::Model>) where
        E: Estimator<Data>,
        Data: Clone,

        requires
            1 <= estimator.min_samples_spec(),
            1 <= old(self).block_size,
            data@.len() <= u32::MAX,
        ensures
            final(self).max_candidate_hypotheses == old(self).max_candidate_hypotheses,
            final(self).block_size == old(self).block_size,
            final(self).oracle == old(self).oracle,
            data@.len() < estimator.min_samples_spec() ==> r is None,
            match r {
                Some(model) => inlier_count(model, data@) > estimator.min_samples_spec(),
                None => true,
            },
    {
        match self.model_inliers(estimator, data) {
            Some((model, _)) => Some(model),
            None => None,
        }
    }
}

} // verus!
