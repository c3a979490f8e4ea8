//! Verified core of a toolkit that benchmarks natural-language-to-Cypher
//! generation: the score-statistics viewer's state and arithmetic, the
//! bookkeeping of the dataset and benchmark runs, and the planning behind the
//! `Dispatch` derive.
pub mod dispatch;
pub mod generation;
pub mod models;
pub mod ranking;
pub mod scoring;
pub mod viewer;
pub mod walk;
