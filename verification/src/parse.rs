//! Event records and the building of a population of traces from them.
//!
//! A stream of records holds the events of one user after another. Each run
//! of records with one user identifier is a user; users are numbered in the
//! order in which their runs begin. A user's events are cut into traces, and
//! a user with too few traces is left out of the population.

use crate::calendar::{hour_and_weekday, hour_of, MAX_TIMESTAMP};
use crate::cli::Config;
use crate::frequency::trace::{
    categories_of, domains_of, lemma_summary_event_count, summarize, urls_of, FreqTrace,
};
use crate::names::{is_name, lowercase, lowercase_of};
use crate::sample::distinct_users;
use crate::segmentation::{
    bounds_of, chronological, duration_of, exceeds_rate, gap_before, kept_chunks,
    lemma_chronological, lemma_kept_chunks_count, lemma_kept_chunks_meet_rules,
    lemma_kept_chunks_within, segment,
};
use crate::sequence::trace::{codes_match, SeqTrace};
use crate::vocabulary::{
    code_value, distinct_in_order, lemma_distinct_in_order_len, lemma_distinct_in_order_push,
    set_items, set_new,
};
use std::str::FromStr;
use vstd::prelude::*;
use vstd::string::*;

verus! {

/// One observed action of a user. The timestamp is in whole seconds since
/// the Unix epoch.
#[derive(Debug)]
pub struct Record {
    pub user_id: String,
    pub timestamp: u64,
    pub url: String,
    pub category: String,
    pub active_seconds: u64,
    pub domain: String,
    pub gender: String,
    pub age: String,
}

/// The data fields of a record and of a trace.
#[derive(Debug, Clone, Copy, PartialEq, Eq, Structural)]
pub enum DataFields {
    Url,
    Domain,
    Gender,
    Age,
    ActiveSeconds,
    Category,
    Day,
    Hour,
}

/// The field that a lower-case name names.
pub open spec fn field_named(name: Seq<char>) -> Option<DataFields> {
    if name == "url"@ {
        Some(DataFields::Url)
    } else if name == "domain"@ {
        Some(DataFields::Domain)
    } else if name == "age"@ {
        Some(DataFields::Age)
    } else if name == "category"@ {
        Some(DataFields::Category)
    } else if name == "day"@ {
        Some(DataFields::Day)
    } else if name == "hour"@ {
        Some(DataFields::Hour)
    } else if name == "gender"@ {
        Some(DataFields::Gender)
    } else if name == "active_seconds"@ {
        Some(DataFields::ActiveSeconds)
    } else {
        None
    }
}

/// The lower-case name of a field.
pub open spec fn name_of(field: DataFields) -> Seq<char> {
    match field {
        DataFields::Url => "url"@,
        DataFields::Domain => "domain"@,
        DataFields::Age => "age"@,
        DataFields::Category => "category"@,
        DataFields::Day => "day"@,
        DataFields::Hour => "hour"@,
        DataFields::Gender => "gender"@,
        DataFields::ActiveSeconds => "active_seconds"@,
    }
}

/// Every field is the one that its name names.
pub proof fn lemma_name_names_field(field: DataFields)
    ensures
        field_named(name_of(field)) == Some(field),
{
    reveal_strlit("url");
    reveal_strlit("domain");
    reveal_strlit("age");
    reveal_strlit("category");
    reveal_strlit("day");
    reveal_strlit("hour");
    reveal_strlit("gender");
    reveal_strlit("active_seconds");
    assert("url"@[0] == 'u' && "domain"@[0] == 'd' && "age"@[0] == 'a' && "category"@[0] == 'c'
        && "day"@[1] == 'a' && "domain"@[1] == 'o' && "hour"@[0] == 'h' && "gender"@[0] == 'g'
        && "active_seconds"@[1] == 'c' && "age"@[1] == 'g');
}

impl DataFields {
    /// The lower-case name of the field.
    pub fn name(&self) -> (name: String)
        ensures
            name@ == name_of(*self),
            field_named(name@) == Some(*self),
    {
        proof {
            lemma_name_names_field(*self);
        }
        match self {
            DataFields::Url => "url".to_owned(),
            DataFields::Domain => "domain".to_owned(),
            DataFields::Age => "age".to_owned(),
            DataFields::Category => "category".to_owned(),
            DataFields::Day => "day".to_owned(),
            DataFields::Hour => "hour".to_owned(),
            DataFields::Gender => "gender".to_owned(),
            DataFields::ActiveSeconds => "active_seconds".to_owned(),
        }
    }

    /// The field that a lower-case name names, if it names one.
    pub fn from_lowercase(name: &str) -> (field: Option<DataFields>)
        ensures
            field == field_named(name@),
    {
        if is_name(name, "url") {
            Some(DataFields::Url)
        } else if is_name(name, "domain") {
            Some(DataFields::Domain)
        } else if is_name(name, "age") {
            Some(DataFields::Age)
        } else if is_name(name, "category") {
            Some(DataFields::Category)
        } else if is_name(name, "day") {
            Some(DataFields::Day)
        } else if is_name(name, "hour") {
            Some(DataFields::Hour)
        } else if is_name(name, "gender") {
            Some(DataFields::Gender)
        } else if is_name(name, "active_seconds") {
            Some(DataFields::ActiveSeconds)
        } else {
            None
        }
    }

    /// The field that a name names in any mix of upper and lower case, if
    /// it names one.
    pub fn from_name(s: &str) -> (field: Option<DataFields>)
        ensures
            field == field_named(lowercase_of(s@)),
    {
        let lowered = lowercase(s);
        DataFields::from_lowercase(lowered.as_str())
    }
}

/// A name that names nothing the library knows.
#[derive(Debug, Clone, Copy, PartialEq, Eq, Structural)]
pub struct UnknownName;

impl FromStr for DataFields {
    type Err = UnknownName;

    /// The field that a name names in any mix of upper and lower case, or
    /// the error that it names none.
    fn from_str(s: &str) -> (field: Result<DataFields, UnknownName>)
        ensures
            match field {
                Ok(found) => field_named(lowercase_of(s@)) == Some(found),
                Err(_) => field_named(lowercase_of(s@)) is None,
            },
    {
        match DataFields::from_name(s) {
            Some(field) => Ok(field),
            None => Err(UnknownName),
        }
    }
}

/// Whether the record at `k` belongs to the same user as the one before it.
pub open spec fn same_user(records: Seq<Record>, k: int) -> bool {
    records[k].user_id@ == records[k - 1].user_id@
}

/// What the library asks of a stream of records: there are no more of them
/// than a 32-bit number counts, every timestamp is one that the calendar
/// knows, and the timestamps of one user do not decrease.
pub open spec fn well_formed_stream(records: Seq<Record>) -> bool {
    &&& records.len() <= u32::MAX
    &&& forall|k: int| 0 <= k < records.len() ==> (#[trigger] records[k]).timestamp <= MAX_TIMESTAMP
    &&& forall|k: int|
        0 < k < records.len() && #[trigger] same_user(records, k) ==> records[k - 1].timestamp
            <= records[k].timestamp
}

/// Tells whether a stream of records is one that the library can take.
pub fn is_well_formed(records: &Vec<Record>) -> (ok: bool)
    ensures
        ok == well_formed_stream(records@),
{
    if records.len() > u32::MAX as usize {
        return false;
    }
    let mut k: usize = 0;
    while k < records.len()
        invariant
            k <= records@.len(),
            forall|j: int| 0 <= j < k ==> (#[trigger] records@[j]).timestamp <= MAX_TIMESTAMP,
            forall|j: int|
                0 < j < k && #[trigger] same_user(records@, j) ==> records@[j - 1].timestamp
                    <= records@[j].timestamp,
        decreases records@.len() - k,
    {
        if records[k].timestamp > MAX_TIMESTAMP {
            return false;
        }
        if k > 0 && records[k - 1].user_id == records[k].user_id && records[k - 1].timestamp
            > records[k].timestamp {
            assert(same_user(records@, k as int));
            return false;
        }
        k = k + 1;
    }
    true
}

/// The end of the run of one user's records, where the records up to `k`
/// are known to belong to it.
pub open spec fn run_end(records: Seq<Record>, k: int) -> int
    decreases records.len() - k,
{
    if k >= records.len() {
        records.len() as int
    } else if !same_user(records, k) {
        k
    } else {
        run_end(records, k + 1)
    }
}

/// The users of the records from `start` on that stay in the population,
/// each with its number and the chunks of records that are its traces. The
/// user whose run begins at `start` has the number `user`.
pub open spec fn population_layout(records: Seq<Record>, config: Config, start: int, user: int) -> Seq<
    (int, Seq<(int, int)>),
>
    decreases records.len() - start,
{
    if start >= records.len() {
        Seq::empty()
    } else {
        let end = run_end(records, start + 1);
        if end <= start || end > records.len() {
            Seq::empty()
        } else {
            let chunks = kept_chunks(records, config, end, start);
            let rest = population_layout(records, config, end, user + 1);
            if chunks.len() >= config.min_num_traces {
                seq![(user, chunks)] + rest
            } else {
                rest
            }
        }
    }
}

/// The layout of a population as mathematical integers.
pub open spec fn layout_of(users: Seq<(u32, Vec<(usize, usize)>)>) -> Seq<(int, Seq<(int, int)>)> {
    users.map_values(|u: (u32, Vec<(usize, usize)>)| (u.0 as int, bounds_of(u.1@)))
}

/// Where a run ends: after the records of the same user.
pub proof fn lemma_run_end(records: Seq<Record>, start: int, k: int)
    requires
        0 <= start < k <= records.len(),
    ensures
        k <= run_end(records, k) <= records.len(),
        forall|j: int| k <= j < run_end(records, k) ==> same_user(records, j),
    decreases records.len() - k,
{
    if k < records.len() && same_user(records, k) {
        lemma_run_end(records, start, k + 1);
    }
}

/// Every user of the population has at least the minimum number of traces,
/// a number that is at least `user`, and a higher number than the users
/// before it.
pub proof fn lemma_population_layout(
    records: Seq<Record>,
    config: Config,
    start: int,
    user: int,
    i: int,
)
    requires
        0 <= start <= records.len(),
        0 <= i < population_layout(records, config, start, user).len(),
    ensures
        population_layout(records, config, start, user)[i].1.len() >= config.min_num_traces,
        population_layout(records, config, start, user)[i].0 >= user,
        population_layout(records, config, start, user)[i].0 < user + records.len() - start,
        forall|j: int|
            0 <= j < i ==> population_layout(records, config, start, user)[j].0
                < population_layout(records, config, start, user)[i].0,
    decreases records.len() - start,
{
    let end = run_end(records, start + 1);
    lemma_run_end(records, start, start + 1);
    let chunks = kept_chunks(records, config, end, start);
    let rest = population_layout(records, config, end, user + 1);
    let all = population_layout(records, config, start, user);
    if chunks.len() >= config.min_num_traces {
        if i > 0 {
            lemma_population_layout(records, config, end, user + 1, i - 1);
            assert(all[i] == rest[i - 1]);
            assert forall|j: int| 0 <= j < i implies all[j].0 < all[i].0 by {
                if j > 0 {
                    assert(all[j] == rest[j - 1]);
                }
            }
        }
    } else {
        lemma_population_layout(records, config, end, user + 1, i);
    }
}

/// The layout of one more user behind the layout of those before it.
proof fn lemma_layout_step(
    records: Seq<Record>,
    config: Config,
    start: int,
    end: int,
    user: int,
    before: Seq<(int, Seq<(int, int)>)>,
    chunks: Seq<(int, int)>,
)
    requires
        0 <= start < end <= records.len(),
        end == run_end(records, start + 1),
        chunks == kept_chunks(records, config, end, start),
    ensures
        chunks.len() >= config.min_num_traces ==> before.push((user, chunks)) + population_layout(
            records,
            config,
            end,
            user + 1,
        ) == before + population_layout(records, config, start, user),
        chunks.len() < config.min_num_traces ==> population_layout(records, config, end, user + 1)
            == population_layout(records, config, start, user),
{
    let rest = population_layout(records, config, end, user + 1);
    if chunks.len() >= config.min_num_traces {
        assert(before.push((user, chunks)) + rest =~= before + (seq![(user, chunks)] + rest));
    }
}

/// Every trace of every user holds at least one record, lies within the
/// records, and holds records of one user only.
pub open spec fn traces_are_runs(users: Seq<(u32, Vec<(usize, usize)>)>, records: Seq<Record>) -> bool {
    forall|u: int, t: int|
        0 <= u < users.len() && 0 <= t < users[u].1@.len() ==> {
            let (a, b) = #[trigger] users[u].1@[t];
            &&& a < b <= records.len()
            &&& forall|k: int| a < k < b ==> same_user(records, k)
        }
}

/// Finds the users of a stream of records and cuts the events of each into
/// traces. Returns, for each user that has at least the minimum number of
/// traces, its number and the bounds of its traces among the records.
pub fn layout_population(records: &Vec<Record>, config: &Config) -> (users: Vec<
    (u32, Vec<(usize, usize)>),
>)
    requires
        well_formed_stream(records@),
    ensures
        layout_of(users@) == population_layout(records@, *config, 0, 0),
        traces_are_runs(users@, records@),
{
    let mut users: Vec<(u32, Vec<(usize, usize)>)> = Vec::new();
    let mut start: usize = 0;
    let mut user: u32 = 0;
    assert(layout_of(users@) =~= Seq::<(int, Seq<(int, int)>)>::empty());
    while start < records.len()
        invariant
            start <= records.len(),
            user <= start,
            well_formed_stream(records@),
            layout_of(users@) + population_layout(records@, *config, start as int, user as int)
                == population_layout(records@, *config, 0, 0),
            traces_are_runs(users@, records@),
        decreases records.len() - start,
    {
        let mut end: usize = start + 1;
        while end < records.len() && records[end].user_id == records[end - 1].user_id
            invariant
                start < end <= records.len(),
                run_end(records@, end as int) == run_end(records@, start + 1),
                forall|j: int| start < j < end ==> same_user(records@, j),
            decreases records.len() - end,
        {
            end = end + 1;
        }
        assert(chronological(records@, start as int, end as int)) by {
            assert forall|k: int| start < k < end implies records@[k - 1].timestamp <= (
            #[trigger] records@[k]).timestamp by {
                assert(same_user(records@, k));
            }
        }
        let chunks = segment(records, start, end, config);
        let ghost before = layout_of(users@);
        proof {
            lemma_layout_step(
                records@,
                *config,
                start as int,
                end as int,
                user as int,
                before,
                bounds_of(chunks@),
            );
            assert(bounds_of(chunks@).len() == chunks@.len());
        }
        if chunks.len() >= config.min_num_traces {
            let ghost entry = (user as int, bounds_of(chunks@));
            let ghost earlier = users@;
            proof {
                assert forall|t: int| 0 <= t < chunks@.len() implies {
                    let (a, b) = #[trigger] chunks@[t];
                    &&& a < b <= records@.len()
                    &&& forall|k: int| a < k < b ==> same_user(records@, k)
                } by {
                    lemma_kept_chunks_within(records@, *config, end as int, start as int, t);
                    assert(bounds_of(chunks@)[t] == (chunks@[t].0 as int, chunks@[t].1 as int));
                }
            }
            users.push((user, chunks));
            assert(layout_of(users@) =~= before.push(entry));
            assert forall|u: int, t: int|
                0 <= u < users@.len() && 0 <= t < users@[u].1@.len() implies {
                let (a, b) = #[trigger] users@[u].1@[t];
                &&& a < b <= records@.len()
                &&& forall|k: int| a < k < b ==> same_user(records@, k)
            } by {
                if u < earlier.len() {
                    assert(users@[u] == earlier[u]);
                    let (a, b) = earlier[u].1@[t];
                }
            }
        }
        start = end;
        user = user + 1;
    }
    assert(layout_of(users@) + Seq::<(int, Seq<(int, int)>)>::empty() =~= layout_of(users@));
    users
}

/// The population holds the users of the layout, each with the summaries
/// of the chunks of records that are its traces.
pub open spec fn is_frequency_population(
    population: Seq<(u32, Vec<FreqTrace>)>,
    records: Seq<Record>,
    layout: Seq<(int, Seq<(int, int)>)>,
) -> bool {
    &&& population.len() == layout.len()
    &&& forall|u: int|
        0 <= u < population.len() ==> {
            &&& (#[trigger] population[u]).0 == layout[u].0
            &&& population[u].1@.len() == layout[u].1.len()
            &&& forall|t: int|
                0 <= t < population[u].1@.len() ==> (#[trigger] population[u].1@[t]).summarizes(
                    records.subrange(layout[u].1[t].0, layout[u].1[t].1),
                )
        }
}

/// The timestamps of a run of one user's records do not decrease.
proof fn lemma_run_is_chronological(records: Seq<Record>, a: int, b: int)
    requires
        well_formed_stream(records),
        0 <= a < b <= records.len(),
        forall|k: int| a < k < b ==> same_user(records, k),
    ensures
        chronological(records, a, b),
        records[a].timestamp <= records[b - 1].timestamp,
{
    assert forall|k: int| a < k < b implies records[k - 1].timestamp <= (
    #[trigger] records[k]).timestamp by {
        assert(same_user(records, k));
    }
    lemma_chronological(records, a, b, a, b - 1);
}

/// Builds the population of the histogram-based approach from a stream of
/// records: the traces of each user that has at least the minimum number of
/// them, under the number of the user.
pub fn parse_to_frequency(records: &Vec<Record>, config: &Config) -> (population: Vec<
    (u32, Vec<FreqTrace>),
>)
    requires
        well_formed_stream(records@),
    ensures
        is_frequency_population(
            population@,
            records@,
            population_layout(records@, *config, 0, 0),
        ),
        distinct_users(population@),
{
    let users = layout_population(records, config);
    let ghost layout = population_layout(records@, *config, 0, 0);
    let mut population: Vec<(u32, Vec<FreqTrace>)> = Vec::new();
    let mut u: usize = 0;
    while u < users.len()
        invariant
            u <= users.len(),
            well_formed_stream(records@),
            layout_of(users@) == layout,
            traces_are_runs(users@, records@),
            is_frequency_population(population@, records@, layout.take(u as int)),
        decreases users.len() - u,
    {
        let chunks = &users[u].1;
        let mut traces: Vec<FreqTrace> = Vec::new();
        let mut t: usize = 0;
        assert(layout[u as int] == layout_of(users@)[u as int]);
        while t < chunks.len()
            invariant
                t <= chunks.len(),
                u < users.len(),
                *chunks == users@[u as int].1,
                well_formed_stream(records@),
                traces_are_runs(users@, records@),
                layout[u as int].1 == bounds_of(chunks@),
                traces.len() == t,
                forall|j: int|
                    0 <= j < t ==> (#[trigger] traces@[j]).summarizes(
                        records@.subrange(layout[u as int].1[j].0, layout[u as int].1[j].1),
                    ),
            decreases chunks.len() - t,
        {
            let (a, b) = chunks[t];
            proof {
                let (x, y) = users@[u as int].1@[t as int];
                assert(x == a && y == b);
                lemma_run_is_chronological(records@, a as int, b as int);
                assert(bounds_of(chunks@)[t as int] == (a as int, b as int));
            }
            traces.push(summarize(records, a, b));
            t = t + 1;
        }
        let ghost before = population@;
        population.push((users[u].0, traces));
        proof {
            assert forall|v: int| 0 <= v < population@.len() implies {
                &&& (#[trigger] population@[v]).0 == layout.take(u + 1)[v].0
                &&& population@[v].1@.len() == layout.take(u + 1)[v].1.len()
                &&& forall|j: int|
                    0 <= j < population@[v].1@.len() ==> (
                    #[trigger] population@[v].1@[j]).summarizes(
                        records@.subrange(
                            layout.take(u + 1)[v].1[j].0,
                            layout.take(u + 1)[v].1[j].1,
                        ),
                    )
            } by {
                if v < u {
                    assert(population@[v] == before[v]);
                    assert(layout.take(u + 1)[v] == layout.take(u as int)[v]);
                }
            }
        }
        u = u + 1;
    }
    assert(layout.take(users.len() as int) =~= layout);
    proof {
        lemma_population_is_sound(population@, records@, *config);
    }
    population
}

/// The population holds the users of the layout, each with the summaries
/// of the chunks of records that are its traces.
pub open spec fn is_sequence_population(
    population: Seq<(u32, Vec<SeqTrace>)>,
    records: Seq<Record>,
    layout: Seq<(int, Seq<(int, int)>)>,
) -> bool {
    &&& population.len() == layout.len()
    &&& forall|u: int|
        0 <= u < population.len() ==> {
            &&& (#[trigger] population[u]).0 == layout[u].0
            &&& population[u].1@.len() == layout[u].1.len()
            &&& forall|t: int|
                0 <= t < population[u].1@.len() ==> (#[trigger] population[u].1@[t]).summarizes(
                    records,
                    layout[u].1[t].0,
                    layout[u].1[t].1,
                )
        }
}

/// The codes of the URL, the domain and the category of each record in the
/// vocabularies of the stream.
pub open spec fn are_codes(codes: Seq<(u32, u32, u32)>, records: Seq<Record>) -> bool {
    &&& codes.len() == records.len()
    &&& codes_match(
        codes.map_values(|c: (u32, u32, u32)| c.0),
        distinct_in_order(urls_of(records)),
        urls_of(records),
        0,
    )
    &&& codes_match(
        codes.map_values(|c: (u32, u32, u32)| c.1),
        distinct_in_order(domains_of(records)),
        domains_of(records),
        0,
    )
    &&& codes_match(
        codes.map_values(|c: (u32, u32, u32)| c.2),
        distinct_in_order(categories_of(records)),
        categories_of(records),
        0,
    )
}

/// Gives each URL, domain and category of a stream of records its code: the
/// number of distinct values of its field that came before its first
/// occurrence.
pub fn encode_records(records: &Vec<Record>) -> (codes: Vec<(u32, u32, u32)>)
    requires
        records@.len() <= u32::MAX,
    ensures
        are_codes(codes@, records@),
{
    let mut url_set = set_new();
    let mut domain_set = set_new();
    let mut category_set = set_new();
    let mut codes: Vec<(u32, u32, u32)> = Vec::new();
    let mut k: usize = 0;
    let ghost urls = urls_of(records@);
    let ghost domains = domains_of(records@);
    let ghost categories = categories_of(records@);
    proof {
        assert(urls.take(0) =~= Seq::<Seq<char>>::empty());
        assert(domains.take(0) =~= Seq::<Seq<char>>::empty());
        assert(categories.take(0) =~= Seq::<Seq<char>>::empty());
    }
    while k < records.len()
        invariant
            k <= records@.len() <= u32::MAX,
            urls == urls_of(records@),
            domains == domains_of(records@),
            categories == categories_of(records@),
            codes@.len() == k,
            set_items(url_set) == distinct_in_order(urls.take(k as int)),
            set_items(domain_set) == distinct_in_order(domains.take(k as int)),
            set_items(category_set) == distinct_in_order(categories.take(k as int)),
            forall|j: int|
                0 <= j < k ==> {
                    &&& (#[trigger] codes@[j]).0 < set_items(url_set).len()
                    &&& set_items(url_set)[codes@[j].0 as int] == urls[j]
                    &&& codes@[j].1 < set_items(domain_set).len()
                    &&& set_items(domain_set)[codes@[j].1 as int] == domains[j]
                    &&& codes@[j].2 < set_items(category_set).len()
                    &&& set_items(category_set)[codes@[j].2 as int] == categories[j]
                },
        decreases records@.len() - k,
    {
        let record = &records[k];
        proof {
            lemma_distinct_in_order_len(urls.take(k as int));
            lemma_distinct_in_order_len(domains.take(k as int));
            lemma_distinct_in_order_len(categories.take(k as int));
            lemma_distinct_in_order_push(urls.take(k as int), urls[k as int]);
            lemma_distinct_in_order_push(domains.take(k as int), domains[k as int]);
            lemma_distinct_in_order_push(categories.take(k as int), categories[k as int]);
            assert(urls.take(k as int).push(urls[k as int]) =~= urls.take(k + 1));
            assert(domains.take(k as int).push(domains[k as int]) =~= domains.take(k + 1));
            assert(categories.take(k as int).push(categories[k as int]) =~= categories.take(
                k + 1,
            ));
        }
        let url = code_value(&mut url_set, &record.url);
        let domain = code_value(&mut domain_set, &record.domain);
        let category = code_value(&mut category_set, &record.category);
        codes.push((url, domain, category));
        k = k + 1;
    }
    proof {
        assert(urls.take(records@.len() as int) =~= urls);
        assert(domains.take(records@.len() as int) =~= domains);
        assert(categories.take(records@.len() as int) =~= categories);
    }
    codes
}

/// Summarizes the records `[a, b)`, the events of one trace, as sequences of
/// codes.
pub fn summarize_sequence(
    records: &Vec<Record>,
    codes: &Vec<(u32, u32, u32)>,
    a: usize,
    b: usize,
) -> (trace: SeqTrace)
    requires
        a < b <= records.len(),
        are_codes(codes@, records@),
        forall|k: int| a <= k < b ==> (#[trigger] records@[k]).timestamp <= MAX_TIMESTAMP,
    ensures
        trace.summarizes(records@, a as int, b as int),
{
    let mut url: Vec<u32> = Vec::new();
    let mut domain: Vec<u32> = Vec::new();
    let mut category: Vec<u32> = Vec::new();
    let mut hour: Vec<u32> = Vec::new();
    let mut k: usize = a;
    while k < b
        invariant
            a <= k <= b <= records.len(),
            are_codes(codes@, records@),
            forall|j: int| a <= j < b ==> (#[trigger] records@[j]).timestamp <= MAX_TIMESTAMP,
            url@.len() == k - a,
            domain@.len() == k - a,
            category@.len() == k - a,
            hour@.len() == k - a,
            forall|i: int| 0 <= i < k - a ==> (#[trigger] url@[i]) == codes@[a + i].0,
            forall|i: int| 0 <= i < k - a ==> (#[trigger] domain@[i]) == codes@[a + i].1,
            forall|i: int| 0 <= i < k - a ==> (#[trigger] category@[i]) == codes@[a + i].2,
            forall|i: int|
                0 <= i < k - a ==> (#[trigger] hour@[i]) == hour_of(records@[a + i].timestamp),
        decreases b - k,
    {
        let (h, d) = hour_and_weekday(records[k].timestamp);
        url.push(codes[k].0);
        domain.push(codes[k].1);
        category.push(codes[k].2);
        hour.push(h);
        k = k + 1;
    }
    let (h, day) = hour_and_weekday(records[b - 1].timestamp);
    proof {
        let c0 = codes@.map_values(|c: (u32, u32, u32)| c.0);
        let c1 = codes@.map_values(|c: (u32, u32, u32)| c.1);
        let c2 = codes@.map_values(|c: (u32, u32, u32)| c.2);
        assert forall|i: int| 0 <= i < url@.len() implies (#[trigger] url@[i])
            < distinct_in_order(urls_of(records@)).len() && distinct_in_order(urls_of(records@))[url@[i] as int]
            == urls_of(records@)[a + i] by {
            assert(url@[i] == c0[a + i]);
        }
        assert forall|i: int| 0 <= i < domain@.len() implies (#[trigger] domain@[i])
            < distinct_in_order(domains_of(records@)).len() && distinct_in_order(
            domains_of(records@),
        )[domain@[i] as int] == domains_of(records@)[a + i] by {
            assert(domain@[i] == c1[a + i]);
        }
        assert forall|i: int| 0 <= i < category@.len() implies (#[trigger] category@[i])
            < distinct_in_order(categories_of(records@)).len() && distinct_in_order(
            categories_of(records@),
        )[category@[i] as int] == categories_of(records@)[a + i] by {
            assert(category@[i] == c2[a + i]);
        }
    }
    SeqTrace {
        url,
        domain,
        category,
        hour,
        day,
        start_time: records[a].timestamp,
        end_time: records[b - 1].timestamp,
        age: records[a].age.clone(),
        gender: records[a].gender.clone(),
    }
}

/// Builds the population of the alignment-based approach from a stream of
/// records: the traces of each user that has at least the minimum number of
/// them, under the number of the user.
pub fn parse_to_sequence(records: &Vec<Record>, config: &Config) -> (population: Vec<
    (u32, Vec<SeqTrace>),
>)
    requires
        well_formed_stream(records@),
    ensures
        is_sequence_population(population@, records@, population_layout(records@, *config, 0, 0)),
        distinct_users(population@),
{
    let codes = encode_records(records);
    let users = layout_population(records, config);
    let ghost layout = population_layout(records@, *config, 0, 0);
    let mut population: Vec<(u32, Vec<SeqTrace>)> = Vec::new();
    let mut u: usize = 0;
    while u < users.len()
        invariant
            u <= users.len(),
            well_formed_stream(records@),
            are_codes(codes@, records@),
            layout_of(users@) == layout,
            traces_are_runs(users@, records@),
            is_sequence_population(population@, records@, layout.take(u as int)),
        decreases users.len() - u,
    {
        let chunks = &users[u].1;
        let mut traces: Vec<SeqTrace> = Vec::new();
        let mut t: usize = 0;
        assert(layout[u as int] == layout_of(users@)[u as int]);
        while t < chunks.len()
            invariant
                t <= chunks.len(),
                u < users.len(),
                *chunks == users@[u as int].1,
                well_formed_stream(records@),
                are_codes(codes@, records@),
                traces_are_runs(users@, records@),
                layout[u as int].1 == bounds_of(chunks@),
                traces.len() == t,
                forall|j: int|
                    0 <= j < t ==> (#[trigger] traces@[j]).summarizes(
                        records@,
                        layout[u as int].1[j].0,
                        layout[u as int].1[j].1,
                    ),
            decreases chunks.len() - t,
        {
            let (a, b) = chunks[t];
            proof {
                let (x, y) = users@[u as int].1@[t as int];
                assert(x == a && y == b);
                assert(bounds_of(chunks@)[t as int] == (a as int, b as int));
            }
            traces.push(summarize_sequence(records, &codes, a, b));
            t = t + 1;
        }
        let ghost before = population@;
        population.push((users[u].0, traces));
        proof {
            assert forall|v: int| 0 <= v < population@.len() implies {
                &&& (#[trigger] population@[v]).0 == layout.take(u + 1)[v].0
                &&& population@[v].1@.len() == layout.take(u + 1)[v].1.len()
                &&& forall|j: int|
                    0 <= j < population@[v].1@.len() ==> (
                    #[trigger] population@[v].1@[j]).summarizes(
                        records@,
                        layout.take(u + 1)[v].1[j].0,
                        layout.take(u + 1)[v].1[j].1,
                    )
            } by {
                if v < u {
                    assert(population@[v] == before[v]);
                    assert(layout.take(u + 1)[v] == layout.take(u as int)[v]);
                }
            }
        }
        u = u + 1;
    }
    assert(layout.take(users.len() as int) =~= layout);
    proof {
        lemma_population_is_sound(population@, records@, *config);
    }
    population
}

/// No user of the layout has more traces than there are records.
pub proof fn lemma_layout_history_bounded(
    records: Seq<Record>,
    config: Config,
    start: int,
    user: int,
    u: int,
)
    requires
        0 <= start <= records.len(),
        0 <= u < population_layout(records, config, start, user).len(),
    ensures
        population_layout(records, config, start, user)[u].1.len() <= records.len(),
    decreases records.len() - start,
{
    let end = run_end(records, start + 1);
    lemma_run_end(records, start, start + 1);
    let chunks = kept_chunks(records, config, end, start);
    let rest = population_layout(records, config, end, user + 1);
    let all = population_layout(records, config, start, user);
    if chunks.len() >= config.min_num_traces {
        if u == 0 {
            lemma_kept_chunks_count(records, config, end, start);
        } else {
            assert(all[u] == rest[u - 1]);
            lemma_layout_history_bounded(records, config, end, user + 1, u - 1);
        }
    } else {
        lemma_layout_history_bounded(records, config, end, user + 1, u);
    }
}

/// What sampling and comparison ask of a population holds of one whose
/// users are those of the layout of a stream: no two users have one number,
/// and each has at least the minimum number of traces and no more than
/// there are records.
pub proof fn lemma_population_is_sound<T>(
    population: Seq<(u32, Vec<T>)>,
    records: Seq<Record>,
    config: Config,
)
    requires
        population.len() == population_layout(records, config, 0, 0).len(),
        forall|u: int|
            0 <= u < population.len() ==> {
                &&& (#[trigger] population[u]).0 == population_layout(records, config, 0, 0)[u].0
                &&& population[u].1@.len() == population_layout(records, config, 0, 0)[u].1.len()
            },
    ensures
        distinct_users(population),
        forall|u: int|
            0 <= u < population.len() ==> config.min_num_traces <= (
            #[trigger] population[u]).1@.len() <= records.len(),
{
    let layout = population_layout(records, config, 0, 0);
    assert forall|p: int, q: int|
        #![trigger population[p], population[q]]
        0 <= p < population.len() && 0 <= q < population.len() && p != q implies population[p].0
            != population[q].0 by {
        if p < q {
            lemma_population_layout(records, config, 0, 0, q);
            assert(layout[p].0 < layout[q].0);
        } else {
            lemma_population_layout(records, config, 0, 0, p);
            assert(layout[q].0 < layout[p].0);
        }
    }
    assert forall|u: int| 0 <= u < population.len() implies config.min_num_traces <= (
    #[trigger] population[u]).1@.len() <= records.len() by {
        lemma_population_layout(records, config, 0, 0, u);
        lemma_layout_history_bounded(records, config, 0, 0, u);
    }
}

/// Every trace of the layout meets the rules of segmentation, and every
/// user of it has at least the minimum number of traces.
pub proof fn lemma_layout_meets_rules(
    records: Seq<Record>,
    config: Config,
    start: int,
    user: int,
    u: int,
    t: int,
)
    requires
        config.max_trace_len >= 1,
        0 <= start <= records.len(),
        0 <= u < population_layout(records, config, start, user).len(),
        0 <= t < population_layout(records, config, start, user)[u].1.len(),
    ensures
        ({
            let chunks = population_layout(records, config, start, user)[u].1;
            let (a, b) = chunks[t];
            &&& chunks.len() >= config.min_num_traces
            &&& start <= a < b <= records.len()
            &&& config.min_trace_len <= b - a <= config.max_trace_len
            &&& duration_of(records, a, b) <= config.max_trace_duration
            &&& !exceeds_rate(b - a, duration_of(records, a, b), config.max_rate)
            &&& forall|k: int| a < k < b ==> gap_before(records, k) <= config.delay_limit
        }),
    decreases records.len() - start,
{
    let end = run_end(records, start + 1);
    lemma_run_end(records, start, start + 1);
    let chunks = kept_chunks(records, config, end, start);
    let rest = population_layout(records, config, end, user + 1);
    let all = population_layout(records, config, start, user);
    if chunks.len() >= config.min_num_traces {
        if u == 0 {
            lemma_kept_chunks_meet_rules(records, config, end, start, t);
        } else {
            assert(all[u] == rest[u - 1]);
            lemma_layout_meets_rules(records, config, end, user + 1, u - 1, t);
        }
    } else {
        lemma_layout_meets_rules(records, config, end, user + 1, u, t);
    }
}

/// Every trace of a population of the histogram-based approach meets the
/// rules of segmentation: it has no fewer events than the minimum and no
/// more than the maximum, it lasts no longer than the longest duration, its
/// rate is within the limit, and it is the summary of a chunk of records of
/// which no two neighbours are further apart than the delay limit. Every
/// user has at least the minimum number of traces.
pub proof fn lemma_frequency_traces_meet_rules(
    population: Seq<(u32, Vec<FreqTrace>)>,
    records: Seq<Record>,
    config: Config,
    u: int,
    t: int,
)
    requires
        config.max_trace_len >= 1,
        is_frequency_population(population, records, population_layout(records, config, 0, 0)),
        0 <= u < population.len(),
        0 <= t < population[u].1@.len(),
    ensures
        ({
            let trace = population[u].1@[t];
            let (a, b) = population_layout(records, config, 0, 0)[u].1[t];
            &&& population[u].1@.len() >= config.min_num_traces
            &&& 0 <= a < b <= records.len()
            &&& trace.summarizes(records.subrange(a, b))
            &&& forall|k: int| a < k < b ==> gap_before(records, k) <= config.delay_limit
            &&& config.min_trace_len <= trace.event_count() <= config.max_trace_len
            &&& trace.end_time - trace.start_time <= config.max_trace_duration
            &&& !exceeds_rate(
                trace.event_count() as int,
                trace.end_time - trace.start_time,
                config.max_rate,
            )
        }),
{
    let layout = population_layout(records, config, 0, 0);
    let trace = population[u].1@[t];
    let (a, b) = layout[u].1[t];
    lemma_layout_meets_rules(records, config, 0, 0, u, t);
    assert(population[u].1@.len() == layout[u].1.len());
    assert(trace.summarizes(records.subrange(a, b)));
    lemma_summary_event_count(trace, records.subrange(a, b));
    assert(records.subrange(a, b)[0] == records[a]);
    assert(records.subrange(a, b).last() == records[b - 1]);
}

/// Every trace of a population of the alignment-based approach meets the
/// rules of segmentation: it has no fewer events than the minimum and no
/// more than the maximum, it lasts no longer than the longest duration, its
/// rate is within the limit, and it is the summary of a chunk of records of
/// which no two neighbours are further apart than the delay limit. Every
/// user has at least the minimum number of traces.
pub proof fn lemma_sequence_traces_meet_rules(
    population: Seq<(u32, Vec<SeqTrace>)>,
    records: Seq<Record>,
    config: Config,
    u: int,
    t: int,
)
    requires
        config.max_trace_len >= 1,
        is_sequence_population(population, records, population_layout(records, config, 0, 0)),
        0 <= u < population.len(),
        0 <= t < population[u].1@.len(),
    ensures
        ({
            let trace = population[u].1@[t];
            let (a, b) = population_layout(records, config, 0, 0)[u].1[t];
            &&& population[u].1@.len() >= config.min_num_traces
            &&& trace.summarizes(records, a, b)
            &&& forall|k: int| a < k < b ==> gap_before(records, k) <= config.delay_limit
            &&& config.min_trace_len <= trace.url@.len() <= config.max_trace_len
            &&& trace.end_time - trace.start_time <= config.max_trace_duration
            &&& !exceeds_rate(
                trace.url@.len() as int,
                trace.end_time - trace.start_time,
                config.max_rate,
            )
        }),
{
    let layout = population_layout(records, config, 0, 0);
    lemma_layout_meets_rules(records, config, 0, 0, u, t);
    assert(population[u].1@.len() == layout[u].1.len());
    assert(population[u].1@[t].summarizes(records, layout[u].1[t].0, layout[u].1[t].1));
}

} // verus!
