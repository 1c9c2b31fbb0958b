//! Simulation engine for linkage attacks on browsing histories: segmentation
//! of event streams into traces, vectorization against per-comparison
//! vocabularies, sampling of observed and target traces, and the ranking and
//! classification of attack results.

pub mod calendar;
pub mod cli;
pub mod click_trace;
pub mod evaluation;
pub mod frequency;
pub mod histogram;
pub mod maths;
pub mod metrics;
pub mod names;
pub mod parse;
pub mod ranking;
pub mod sample;
pub mod segmentation;
pub mod sequence;
pub mod structs;
pub mod utils;
pub mod vocabulary;
