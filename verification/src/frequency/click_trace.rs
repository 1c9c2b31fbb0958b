//! Click traces of the histogram-based approach as vectors.

use vstd::prelude::*;

verus! {

/// A click trace as vectors over the vocabularies of one comparison: those
/// of a trace, and the one-hot vector of the bin of its click rate.
#[derive(Debug, Clone)]
pub struct VectFreqClickTrace<T> {
    pub url: Vec<T>,
    pub domain: Vec<T>,
    pub category: Vec<T>,
    pub hour: Vec<T>,
    pub day: Vec<T>,
    pub age: Vec<T>,
    pub gender: Vec<T>,
    pub click_rate: Vec<T>,
}

} // verus!
