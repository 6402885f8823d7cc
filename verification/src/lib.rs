//! Monte Carlo study of the hundred-prisoners search puzzle.
//!
//! `n` containers each hide one of the numbers `0..n`, arranged as a random
//! permutation. Each of `n` searchers may open a bounded number of containers
//! looking for its own number; a trial succeeds only when every searcher
//! succeeds. Two picking strategies are simulated: opening containers in a
//! private random order, and following the cycle that starts at one's own
//! index.

pub mod permutation;
pub mod strategy;
pub mod trial;
pub mod sim;
