//! The configuration of a run.

use crate::frequency::metrics::{metric_named, DistanceMetric};
use crate::names::{is_name, lowercase_of};
use crate::parse::{field_named, DataFields};
use vstd::prelude::*;

verus! {

/// How traces are represented and compared.
#[derive(Debug, Clone, Copy, PartialEq, Eq, Structural)]
pub enum Approach {
    /// Order-preserving code sequences, compared by alignment.
    Sequence,
    /// Frequency histograms, compared by distance.
    Frequency,
}

/// The alignment algorithm of the sequence approach.
#[derive(Debug, Clone, Copy, PartialEq, Eq, Structural)]
pub enum AlignmentStrategy {
    NeedlemanWunsch,
    SmithWaterman,
}

/// Which score of an alignment counts.
#[derive(Debug, Clone, Copy, PartialEq, Eq, Structural)]
pub enum AlignmentScope {
    Global,
    Local,
}

/// The scores that an alignment gives to a pair of equal items, a pair of
/// unequal items, an insertion and a deletion.
#[derive(Debug, Clone, Copy, PartialEq, Eq, Structural)]
pub struct ScoringScheme {
    pub equal: isize,
    pub align: isize,
    pub insert: isize,
    pub delete: isize,
}

/// A rate of `events` events in `seconds` seconds.
#[derive(Debug, Clone, Copy, PartialEq, Eq, Structural)]
pub struct Rate {
    pub events: u64,
    pub seconds: u64,
}

/// The parameters of a run. Times are in whole seconds.
#[derive(Debug)]
pub struct Config {
    /// The longest gap between two events of one trace.
    pub delay_limit: u64,
    /// The data fields by which traces are compared.
    pub fields: Vec<DataFields>,
    pub max_trace_len: usize,
    pub min_trace_len: usize,
    pub max_trace_duration: u64,
    /// The highest rate of events of a trace; `None` where the rate of a
    /// trace is not looked at.
    pub max_rate: Option<Rate>,
    pub min_num_traces: usize,
    pub user_sample_size: usize,
    /// The number of observed traces per user; 0 for all of them.
    pub trace_sample_size: usize,
    pub target_trace_sample_size: usize,
    pub metric: DistanceMetric,
    pub path: String,
    pub path_to_map: String,
    pub seed: u64,
    pub typical: bool,
    pub dependent: bool,
    pub multiple: bool,
    pub strategy: AlignmentStrategy,
    pub scoring_matrix: ScoringScheme,
    pub approach: Approach,
    pub scope: AlignmentScope,
}

/// The approach that a name names.
pub open spec fn approach_named(name: Seq<char>) -> Option<Approach> {
    if name == "sequence"@ {
        Some(Approach::Sequence)
    } else if name == "frequency"@ {
        Some(Approach::Frequency)
    } else {
        None
    }
}

/// The alignment strategy that a name names.
pub open spec fn strategy_named(name: Seq<char>) -> Option<AlignmentStrategy> {
    if name == "nw"@ {
        Some(AlignmentStrategy::NeedlemanWunsch)
    } else if name == "sw"@ {
        Some(AlignmentStrategy::SmithWaterman)
    } else {
        None
    }
}

/// The scope of alignment that a name names.
pub open spec fn scope_named(name: Seq<char>) -> Option<AlignmentScope> {
    if name == "global"@ {
        Some(AlignmentScope::Global)
    } else if name == "local"@ {
        Some(AlignmentScope::Local)
    } else {
        None
    }
}

/// The scoring scheme that a list of scores gives: its first four scores,
/// where it has four.
pub open spec fn scheme_of(scores: Seq<isize>) -> Option<ScoringScheme> {
    if scores.len() >= 4 {
        Some(ScoringScheme { equal: scores[0], align: scores[1], insert: scores[2], delete: scores[3] })
    } else {
        None
    }
}

impl Approach {
    /// The approach that a name names, if it names one.
    pub fn from_name(s: &str) -> (approach: Option<Approach>)
        ensures
            approach == approach_named(s@),
    {
        if is_name(s, "sequence") {
            Some(Approach::Sequence)
        } else if is_name(s, "frequency") {
            Some(Approach::Frequency)
        } else {
            None
        }
    }
}

impl AlignmentStrategy {
    /// The alignment strategy that a name names, if it names one.
    pub fn from_name(s: &str) -> (strategy: Option<AlignmentStrategy>)
        ensures
            strategy == strategy_named(s@),
    {
        if is_name(s, "nw") {
            Some(AlignmentStrategy::NeedlemanWunsch)
        } else if is_name(s, "sw") {
            Some(AlignmentStrategy::SmithWaterman)
        } else {
            None
        }
    }
}

impl AlignmentScope {
    /// The scope of alignment that a name names, if it names one.
    pub fn from_name(s: &str) -> (scope: Option<AlignmentScope>)
        ensures
            scope == scope_named(s@),
    {
        if is_name(s, "global") {
            Some(AlignmentScope::Global)
        } else if is_name(s, "local") {
            Some(AlignmentScope::Local)
        } else {
            None
        }
    }
}

impl ScoringScheme {
    /// The scoring scheme of a list of scores, where it has four or more.
    pub fn from_scores(scores: &Vec<isize>) -> (scheme: Option<ScoringScheme>)
        ensures
            scheme == scheme_of(scores@),
    {
        if scores.len() >= 4 {
            Some(
                ScoringScheme {
                    equal: scores[0],
                    align: scores[1],
                    insert: scores[2],
                    delete: scores[3],
                },
            )
        } else {
            None
        }
    }
}

/// The parameters of a run as they are given: the fields, the metric, the
/// strategy, the scope and the approach by their names, the scoring scheme
/// as a list of scores.
#[derive(Debug)]
pub struct RawConfig {
    pub delay_limit: u64,
    pub fields: Vec<String>,
    pub max_trace_len: usize,
    pub min_trace_len: usize,
    pub max_trace_duration: u64,
    pub max_rate: Option<Rate>,
    pub min_num_traces: usize,
    pub user_sample_size: usize,
    pub trace_sample_size: usize,
    pub target_trace_sample_size: usize,
    pub metric: String,
    pub path: String,
    pub path_to_map: String,
    pub seed: u64,
    pub typical: bool,
    pub dependent: bool,
    pub multiple: bool,
    pub strategy: String,
    pub scoring_matrix: Vec<isize>,
    pub approach: String,
    pub scope: String,
}

/// What is wrong with the parameters of a run.
#[derive(Debug, Clone, Copy, PartialEq, Eq, Structural)]
pub enum ConfigError {
    /// The name at this place of the fields names no field.
    UnknownField(usize),
    UnknownMetric,
    UnknownStrategy,
    UnknownScope,
    UnknownApproach,
    /// The scoring scheme has fewer than four scores.
    ShortScoringMatrix,
}

/// The place of the first name from `i` on that names no field, or the
/// number of names where every name names one.
pub open spec fn first_unknown_field(names: Seq<String>, i: int) -> int
    decreases names.len() - i,
{
    if i >= names.len() {
        names.len() as int
    } else if field_named(lowercase_of(names[i]@)) is None {
        i
    } else {
        first_unknown_field(names, i + 1)
    }
}

/// What is wrong with the given parameters, if anything: the first of an
/// unknown field, an unknown metric, an unknown strategy, an unknown scope,
/// an unknown approach and a short scoring scheme.
pub open spec fn config_error(raw: RawConfig) -> Option<ConfigError> {
    if first_unknown_field(raw.fields@, 0) < raw.fields@.len() {
        Some(ConfigError::UnknownField(first_unknown_field(raw.fields@, 0) as usize))
    } else if metric_named(raw.metric@) is None {
        Some(ConfigError::UnknownMetric)
    } else if strategy_named(raw.strategy@) is None {
        Some(ConfigError::UnknownStrategy)
    } else if scope_named(raw.scope@) is None {
        Some(ConfigError::UnknownScope)
    } else if approach_named(raw.approach@) is None {
        Some(ConfigError::UnknownApproach)
    } else if scheme_of(raw.scoring_matrix@) is None {
        Some(ConfigError::ShortScoringMatrix)
    } else {
        None
    }
}

/// The configuration holds what the given parameters name.
pub open spec fn is_config_of(config: Config, raw: RawConfig) -> bool {
    &&& config.fields@.len() == raw.fields@.len()
    &&& forall|k: int|
        0 <= k < raw.fields@.len() ==> Some(#[trigger] config.fields@[k]) == field_named(
            lowercase_of(raw.fields@[k]@),
        )
    &&& Some(config.metric) == metric_named(raw.metric@)
    &&& Some(config.strategy) == strategy_named(raw.strategy@)
    &&& Some(config.scope) == scope_named(raw.scope@)
    &&& Some(config.approach) == approach_named(raw.approach@)
    &&& Some(config.scoring_matrix) == scheme_of(raw.scoring_matrix@)
    &&& config.delay_limit == raw.delay_limit
    &&& config.max_trace_len == raw.max_trace_len
    &&& config.min_trace_len == raw.min_trace_len
    &&& config.max_trace_duration == raw.max_trace_duration
    &&& config.max_rate == raw.max_rate
    &&& config.min_num_traces == raw.min_num_traces
    &&& config.user_sample_size == raw.user_sample_size
    &&& config.trace_sample_size == raw.trace_sample_size
    &&& config.target_trace_sample_size == raw.target_trace_sample_size
    &&& config.path@ == raw.path@
    &&& config.path_to_map@ == raw.path_to_map@
    &&& config.seed == raw.seed
    &&& config.typical == raw.typical
    &&& config.dependent == raw.dependent
    &&& config.multiple == raw.multiple
}

/// Where no name from `i` on is unknown up to `j`, the first unknown name
/// from `i` on is the first from `j` on.
proof fn lemma_first_unknown_field(names: Seq<String>, i: int, j: int)
    requires
        0 <= i <= j <= names.len(),
        forall|k: int| i <= k < j ==> field_named(lowercase_of(#[trigger] names[k]@)) is Some,
    ensures
        first_unknown_field(names, i) == first_unknown_field(names, j),
    decreases j - i,
{
    if i < j {
        lemma_first_unknown_field(names, i + 1, j);
    }
}

/// Checks the names of the given parameters and turns them into the
/// configuration of a run, or says what is wrong with them.
pub fn check_config(raw: RawConfig) -> (checked: Result<Config, ConfigError>)
    ensures
        match checked {
            Ok(config) => config_error(raw) is None && is_config_of(config, raw),
            Err(error) => config_error(raw) == Some(error),
        },
{
    let mut fields: Vec<DataFields> = Vec::new();
    let mut k: usize = 0;
    while k < raw.fields.len()
        invariant
            k <= raw.fields@.len(),
            fields@.len() == k,
            forall|j: int|
                0 <= j < k ==> Some(#[trigger] fields@[j]) == field_named(
                    lowercase_of(raw.fields@[j]@),
                ),
        decreases raw.fields@.len() - k,
    {
        match DataFields::from_name(raw.fields[k].as_str()) {
            Some(field) => {
                fields.push(field);
            },
            None => {
                proof {
                    assert forall|j: int| 0 <= j < k implies field_named(
                        lowercase_of(#[trigger] raw.fields@[j]@),
                    ) is Some by {
                        assert(Some(fields@[j]) == field_named(lowercase_of(raw.fields@[j]@)));
                    }
                    lemma_first_unknown_field(raw.fields@, 0, k as int);
                }
                return Err(ConfigError::UnknownField(k));
            },
        }
        k = k + 1;
    }
    proof {
        assert forall|j: int| 0 <= j < raw.fields@.len() implies field_named(
            lowercase_of(#[trigger] raw.fields@[j]@),
        ) is Some by {
            assert(Some(fields@[j]) == field_named(lowercase_of(raw.fields@[j]@)));
        }
        lemma_first_unknown_field(raw.fields@, 0, raw.fields@.len() as int);
    }
    let metric = match DistanceMetric::from_name(raw.metric.as_str()) {
        Some(metric) => metric,
        None => {
            return Err(ConfigError::UnknownMetric);
        },
    };
    let strategy = match AlignmentStrategy::from_name(raw.strategy.as_str()) {
        Some(strategy) => strategy,
        None => {
            return Err(ConfigError::UnknownStrategy);
        },
    };
    let scope = match AlignmentScope::from_name(raw.scope.as_str()) {
        Some(scope) => scope,
        None => {
            return Err(ConfigError::UnknownScope);
        },
    };
    let approach = match Approach::from_name(raw.approach.as_str()) {
        Some(approach) => approach,
        None => {
            return Err(ConfigError::UnknownApproach);
        },
    };
    let scoring_matrix = match ScoringScheme::from_scores(&raw.scoring_matrix) {
        Some(scheme) => scheme,
        None => {
            return Err(ConfigError::ShortScoringMatrix);
        },
    };
    Ok(
        Config {
            delay_limit: raw.delay_limit,
            fields,
            max_trace_len: raw.max_trace_len,
            min_trace_len: raw.min_trace_len,
            max_trace_duration: raw.max_trace_duration,
            max_rate: raw.max_rate,
            min_num_traces: raw.min_num_traces,
            user_sample_size: raw.user_sample_size,
            trace_sample_size: raw.trace_sample_size,
            target_trace_sample_size: raw.target_trace_sample_size,
            metric,
            path: raw.path,
            path_to_map: raw.path_to_map,
            seed: raw.seed,
            typical: raw.typical,
            dependent: raw.dependent,
            multiple: raw.multiple,
            strategy,
            scoring_matrix,
            approach,
            scope,
        },
    )
}

} // verus!
