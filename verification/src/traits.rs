//! The collaborators a caller hands to the engine.
//!
//! The engine never looks inside an observation, a model or a probability
//! estimate: it only asks the questions below. Everything the engine does
//! with the answers is verified; the answers themselves are the caller's.

use vstd::prelude::*;

verus! {

/// A candidate model over observations of type `Data`.
///
/// The engine only ever asks whether an observation lies strictly within the
/// caller's residual threshold of the model. The answer must be a pure
/// function of the model and the observation, which `inlier_spec` names; an
/// implementation whose residual is not a number must answer `false`.
pub trait Model<Data> {
    /// The inlier decision as a mathematical function of model and
    /// observation: each implementation names its own meaning here, and
    /// `is_inlier` answers it.
    spec fn inlier_spec(&self, data: &Data) -> bool;

    /// Whether `data` lies strictly within the residual threshold of this
    /// model.
    fn is_inlier(&self, data: &Data) -> (r: bool)
        ensures
            r == self.inlier_spec(data),
    ;
}

/// Produces candidate models from minimal samples of observations.
pub trait Estimator<Data> {
    /// The model type this estimator produces.
    type Model: Model<Data>;

    /// The number of observations a minimal sample holds, as a fixed
    /// mathematical value named by each implementation.
    spec fn min_samples_spec(&self) -> usize;

    /// The number of observations a minimal sample holds; at least one.
    fn min_samples(&self) -> (r: usize)
        ensures
            r == self.min_samples_spec(),
    ;

    /// Produces zero or more candidate models from a minimal sample.
    /// Nothing is promised about the models; the engine validates every one
    /// of them itself.
    fn estimate(&self, sample: &[Data]) -> (models: Vec<Self::Model>)
        requires
            sample@.len() == self.min_samples_spec(),
    ;
}

/// A source of uniformly distributed 32-bit words.
///
/// Nothing at all is promised about the values drawn: the engine's
/// guarantees hold of every word sequence, and its sampling loops carry
/// their own bounds rather than leaning on the source.
pub trait WordRng {
    /// Draws the next 32-bit word.
    fn next_u32(&mut self) -> u32;
}

/// The probabilistic arithmetic of the adaptive sequential probability
/// ratio test.
///
/// The oracle owns the caller's configured thresholds and the running
/// estimates of the inlier probabilities of good and of bad models, all of
/// them floating-point quantities the engine keeps opaque. The engine's
/// bookkeeping is verified for every possible behaviour of these
/// operations, so nothing is promised about their results.
pub trait SprtOracle {
    /// The current probability estimates together with the likelihood
    /// ratios derived from them.
    type Ratios;

    /// The running likelihood ratio of one hypothesis under test.
    type Likelihood;

    /// The ratios derived from the configured initial estimates.
    fn initial_ratios(&self) -> Self::Ratios;

    /// The support a hypothesis must exceed before the estimate of a good
    /// model's inlier probability is first raised: the floor of that initial
    /// estimate times `prefix`.
    fn initial_inlier_floor(&self, prefix: usize) -> usize;

    /// A hypothesis with `inliers` of the first `prefix` observations beat
    /// the previous best: raise the good-model estimate to their ratio, cap
    /// the bad-model estimate at three quarters of it, and rederive the
    /// likelihood ratios.
    fn accept_update(&self, ratios: Self::Ratios, inliers: usize, prefix: usize) -> Self::Ratios;

    /// A hypothesis was rejected: re-estimate the bad-model probability as
    /// `total_inliers` over `estimations` times `prefix`, raise the
    /// good-model estimate to five quarters of it (at most one) where it was
    /// overtaken, and rederive the likelihood ratios.
    fn reject_update(
        &self,
        ratios: Self::Ratios,
        total_inliers: usize,
        estimations: usize,
        prefix: usize,
    ) -> Self::Ratios;

    /// A block was scored: re-estimate the good-model probability as
    /// `best_count` over `prefix`, cap the bad-model estimate at three
    /// quarters of it, and rederive the likelihood ratios.
    fn block_update(&self, ratios: Self::Ratios, best_count: usize, prefix: usize) -> Self::Ratios;

    /// The likelihood ratio of a hypothesis before any observation, as the
    /// mathematical value named by each implementation: one.
    spec fn likelihood_init_spec(&self) -> Self::Likelihood;

    /// The likelihood ratio of a hypothesis before any observation.
    fn likelihood_init(&self) -> (r: Self::Likelihood)
        ensures
            r == self.likelihood_init_spec(),
    ;

    /// The running ratio after one more observation: each implementation
    /// names here what its `likelihood_step` computes from the current
    /// ratios, the ratio so far and the inlier verdict.
    spec fn step_ratio_spec(
        &self,
        ratios: &Self::Ratios,
        likelihood: Self::Likelihood,
        inlier: bool,
    ) -> Self::Likelihood;

    /// Whether that one step rejects the hypothesis, as a mathematical
    /// function of the same arguments: the new ratio crossed the caller's
    /// threshold or is not a number.
    spec fn step_rejects_spec(
        &self,
        ratios: &Self::Ratios,
        likelihood: Self::Likelihood,
        inlier: bool,
    ) -> bool;

    /// Multiplies the running ratio by the positive or the negative
    /// likelihood ratio according to `inlier`. The flag in the result says
    /// whether the hypothesis must be rejected now.
    fn likelihood_step(
        &self,
        ratios: &Self::Ratios,
        likelihood: Self::Likelihood,
        inlier: bool,
    ) -> (r: (Self::Likelihood, bool))
        ensures
            r.0 == self.step_ratio_spec(ratios, likelihood, inlier),
            r.1 == self.step_rejects_spec(ratios, likelihood, inlier),
    ;
}

} // verus!
