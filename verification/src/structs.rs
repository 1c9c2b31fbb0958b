//! Click traces as vectors of their categorical fields.

use vstd::prelude::*;

verus! {

/// A click trace as count vectors of its categorical fields: the websites,
/// the response codes, the location and the categories over their
/// vocabularies.
#[derive(Debug, Clone)]
pub struct ClickTraceVect {
    pub website: Vec<u32>,
    pub code: Vec<u32>,
    pub location: Vec<u32>,
    pub category: Vec<u32>,
}

} // verus!
