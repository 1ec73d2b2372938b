//! Adaptive real-time random sample consensus.
//!
//! The engine draws minimal samples from a dataset, asks a caller-supplied
//! estimator for candidate models, scores each candidate with a sequential
//! probability ratio test over a growing prefix of the data, and winnows the
//! pool of surviving hypotheses block by block until a single best-supported
//! model remains.
//!
//! The caller supplies the probabilistic side of the procedure through the
//! traits in [`traits`]: the residual test of a model, the estimator, the
//! random words that drive sampling, and the likelihood-ratio arithmetic of
//! the sequential test. Everything the engine decides on top of those
//! answers is specified and verified here: samples are distinct and in
//! range, support counts are exact over the prefix evaluated so far, and a
//! returned model comes with the exact, strictly increasing list of its
//! inlier positions over the whole dataset.

pub mod counting;
pub mod engine;
pub mod pool;
pub mod traits;

pub use engine::Arrsac;
