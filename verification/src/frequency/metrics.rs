//! The distance metrics of the histogram-based approach.
//!
//! The metrics themselves are functions of real numbers; this module names
//! them.

use crate::names::is_name;
use crate::parse::UnknownName;
use std::str::FromStr;
use vstd::prelude::*;

verus! {

/// The metrics by which two frequency vectors are compared.
#[derive(Debug, Clone, Copy, PartialEq, Eq, Structural)]
pub enum DistanceMetric {
    Euclidean,
    Manhattan,
    Cosine,
    NonIntersection,
    Bhattacharyya,
    KullbrackLeibler,
    TotalVariation,
    JeffriesMatusita,
    ChiSquared,
}

/// The metric that a name names.
pub open spec fn metric_named(name: Seq<char>) -> Option<DistanceMetric> {
    if name == "euclidean"@ {
        Some(DistanceMetric::Euclidean)
    } else if name == "manhattan"@ {
        Some(DistanceMetric::Manhattan)
    } else if name == "cosine"@ {
        Some(DistanceMetric::Cosine)
    } else if name == "non_intersection"@ {
        Some(DistanceMetric::NonIntersection)
    } else if name == "bhattacharyya"@ {
        Some(DistanceMetric::Bhattacharyya)
    } else if name == "kullbrack_leibler"@ {
        Some(DistanceMetric::KullbrackLeibler)
    } else if name == "total_variation"@ {
        Some(DistanceMetric::TotalVariation)
    } else if name == "jeffries_matusita"@ {
        Some(DistanceMetric::JeffriesMatusita)
    } else if name == "chi_quared"@ {
        Some(DistanceMetric::ChiSquared)
    } else {
        None
    }
}

impl DistanceMetric {
    /// The metric that a name names, if it names one.
    pub fn from_name(s: &str) -> (metric: Option<DistanceMetric>)
        ensures
            metric == metric_named(s@),
    {
        if is_name(s, "euclidean") {
            Some(DistanceMetric::Euclidean)
        } else if is_name(s, "manhattan") {
            Some(DistanceMetric::Manhattan)
        } else if is_name(s, "cosine") {
            Some(DistanceMetric::Cosine)
        } else if is_name(s, "non_intersection") {
            Some(DistanceMetric::NonIntersection)
        } else if is_name(s, "bhattacharyya") {
            Some(DistanceMetric::Bhattacharyya)
        } else if is_name(s, "kullbrack_leibler") {
            Some(DistanceMetric::KullbrackLeibler)
        } else if is_name(s, "total_variation") {
            Some(DistanceMetric::TotalVariation)
        } else if is_name(s, "jeffries_matusita") {
            Some(DistanceMetric::JeffriesMatusita)
        } else if is_name(s, "chi_quared") {
            Some(DistanceMetric::ChiSquared)
        } else {
            None
        }
    }
}

impl FromStr for DistanceMetric {
    type Err = UnknownName;

    /// The metric that a name names, or the error that it names none.
    fn from_str(s: &str) -> (metric: Result<DistanceMetric, UnknownName>)
        ensures
            match metric {
                Ok(found) => metric_named(s@) == Some(found),
                Err(_) => metric_named(s@) is None,
            },
    {
        match DistanceMetric::from_name(s) {
            Some(metric) => Ok(metric),
            None => Err(UnknownName),
        }
    }
}

} // verus!
