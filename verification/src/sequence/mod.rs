//! The alignment-based approach: traces as sequences of codes.

pub mod evaluation;
pub mod trace;
