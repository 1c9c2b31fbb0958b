//! Click traces as vectors.

use vstd::prelude::*;

verus! {

/// A click trace as count vectors: the websites, the response codes, the
/// location and the categories over their vocabularies, and the counts of
/// the hours of the day and the days of the week.
#[derive(Debug, Clone)]
pub struct VectClickTrace {
    pub website: Vec<u32>,
    pub code: Vec<u32>,
    pub location: Vec<u32>,
    pub category: Vec<u32>,
    pub hour: Vec<u32>,
    pub day: Vec<u32>,
}

} // verus!
