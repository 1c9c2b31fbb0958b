//! The distance metrics of count vectors, and the part of the Jaccard
//! distance that is a matter of whole numbers.
//!
//! The Jaccard distance of two vectors is one minus the share of the places
//! at which both vectors have a count among the places at which one of them
//! has. This module counts the places; the division is left to the caller.

use crate::names::{is_name, lowercase, lowercase_of};
use crate::parse::UnknownName;
use std::str::FromStr;
use vstd::prelude::*;

verus! {

/// The metrics by which two count vectors are compared.
#[derive(Debug, Clone, Copy, PartialEq, Eq, Structural)]
pub enum DistanceMetrics {
    Euclidean,
    Manhatten,
    Cosine,
    Jaccard,
    Bhattacharyya,
    KullbrackLeibler,
    TotalVariation,
    JeffriesMatusita,
    ChiSquared,
}

/// The metric that a lower-case name names.
pub open spec fn metrics_named(name: Seq<char>) -> Option<DistanceMetrics> {
    if name == "euclidean"@ {
        Some(DistanceMetrics::Euclidean)
    } else if name == "manhatten"@ {
        Some(DistanceMetrics::Manhatten)
    } else if name == "cosine"@ {
        Some(DistanceMetrics::Cosine)
    } else if name == "jaccard"@ {
        Some(DistanceMetrics::Jaccard)
    } else if name == "bhattacharyya"@ {
        Some(DistanceMetrics::Bhattacharyya)
    } else if name == "kullbrack_leibler"@ {
        Some(DistanceMetrics::KullbrackLeibler)
    } else if name == "total_variation"@ {
        Some(DistanceMetrics::TotalVariation)
    } else if name == "jeffries_matusita"@ {
        Some(DistanceMetrics::JeffriesMatusita)
    } else if name == "chi_quared"@ {
        Some(DistanceMetrics::ChiSquared)
    } else {
        None
    }
}

impl DistanceMetrics {
    /// The metric that a lower-case name names, if it names one.
    pub fn from_lowercase(name: &str) -> (metric: Option<DistanceMetrics>)
        ensures
            metric == metrics_named(name@),
    {
        if is_name(name, "euclidean") {
            Some(DistanceMetrics::Euclidean)
        } else if is_name(name, "manhatten") {
            Some(DistanceMetrics::Manhatten)
        } else if is_name(name, "cosine") {
            Some(DistanceMetrics::Cosine)
        } else if is_name(name, "jaccard") {
            Some(DistanceMetrics::Jaccard)
        } else if is_name(name, "bhattacharyya") {
            Some(DistanceMetrics::Bhattacharyya)
        } else if is_name(name, "kullbrack_leibler") {
            Some(DistanceMetrics::KullbrackLeibler)
        } else if is_name(name, "total_variation") {
            Some(DistanceMetrics::TotalVariation)
        } else if is_name(name, "jeffries_matusita") {
            Some(DistanceMetrics::JeffriesMatusita)
        } else if is_name(name, "chi_quared") {
            Some(DistanceMetrics::ChiSquared)
        } else {
            None
        }
    }

    /// The metric that a name names in any mix of upper and lower case, if
    /// it names one.
    pub fn from_name(s: &str) -> (metric: Option<DistanceMetrics>)
        ensures
            metric == metrics_named(lowercase_of(s@)),
    {
        let lowered = lowercase(s);
        DistanceMetrics::from_lowercase(lowered.as_str())
    }
}

impl FromStr for DistanceMetrics {
    type Err = UnknownName;

    /// The metric that a name names in any mix of upper and lower case, or
    /// the error that it names none.
    fn from_str(s: &str) -> (metric: Result<DistanceMetrics, UnknownName>)
        ensures
            match metric {
                Ok(found) => metrics_named(lowercase_of(s@)) == Some(found),
                Err(_) => metrics_named(lowercase_of(s@)) is None,
            },
    {
        match DistanceMetrics::from_name(s) {
            Some(metric) => Ok(metric),
            None => Err(UnknownName),
        }
    }
}

/// Whether the vector has a count at the place `i`.
pub open spec fn has_count(vector: Seq<u32>, i: int) -> bool {
    0 <= i < vector.len() && vector[i] > 0
}

/// The number of places below `n` at which both vectors have a count.
pub open spec fn shared_support(a: Seq<u32>, b: Seq<u32>, n: int) -> nat
    decreases n,
{
    if n <= 0 {
        0
    } else {
        shared_support(a, b, n - 1) + if has_count(a, n - 1) && has_count(b, n - 1) {
            1nat
        } else {
            0nat
        }
    }
}

/// The number of places below `n` at which one of the vectors has a count.
pub open spec fn joint_support(a: Seq<u32>, b: Seq<u32>, n: int) -> nat
    decreases n,
{
    if n <= 0 {
        0
    } else {
        joint_support(a, b, n - 1) + if has_count(a, n - 1) || has_count(b, n - 1) {
            1nat
        } else {
            0nat
        }
    }
}

/// The longer of the two lengths.
pub open spec fn span_of(a: Seq<u32>, b: Seq<u32>) -> int {
    if a.len() >= b.len() {
        a.len() as int
    } else {
        b.len() as int
    }
}

/// The two vectors share no more places than they have together, neither of
/// them more than there are places; a vector shares with itself all the
/// places that it has. So the Jaccard distance is never below zero, and is
/// zero between a vector that has a count and itself.
pub proof fn lemma_support_bounds(a: Seq<u32>, b: Seq<u32>, n: int)
    ensures
        shared_support(a, b, n) <= joint_support(a, b, n),
        n >= 0 ==> joint_support(a, b, n) <= n,
        shared_support(a, a, n) == joint_support(a, a, n),
        shared_support(a, b, n) == shared_support(b, a, n),
        joint_support(a, b, n) == joint_support(b, a, n),
    decreases n,
{
    if n > 0 {
        lemma_support_bounds(a, b, n - 1);
    }
}

/// Counts the places at which both vectors have a count, and the places at
/// which one of them has. The Jaccard distance of the vectors is one minus
/// the first number over the second.
pub fn jaccard_support(target_vec: &Vec<u32>, ref_vec: &Vec<u32>) -> (counts: (usize, usize))
    ensures
        counts.0 == shared_support(target_vec@, ref_vec@, span_of(target_vec@, ref_vec@)),
        counts.1 == joint_support(target_vec@, ref_vec@, span_of(target_vec@, ref_vec@)),
        counts.0 <= counts.1,
{
    let span: usize = if target_vec.len() >= ref_vec.len() {
        target_vec.len()
    } else {
        ref_vec.len()
    };
    let mut shared: usize = 0;
    let mut joint: usize = 0;
    let mut i: usize = 0;
    while i < span
        invariant
            i <= span,
            span == span_of(target_vec@, ref_vec@),
            shared == shared_support(target_vec@, ref_vec@, i as int),
            joint == joint_support(target_vec@, ref_vec@, i as int),
            shared <= joint <= i,
        decreases span - i,
    {
        let in_target: bool = i < target_vec.len() && target_vec[i] > 0;
        let in_ref: bool = i < ref_vec.len() && ref_vec[i] > 0;
        if in_target && in_ref {
            shared = shared + 1;
        }
        if in_target || in_ref {
            joint = joint + 1;
        }
        i = i + 1;
    }
    (shared, joint)
}

} // verus!
