//! The histogram-based approach: traces as frequency vectors.

pub mod click_trace;
pub mod evaluation;
pub mod maths;
pub mod metrics;
pub mod trace;
