//! Traces of the histogram-based approach and their vectors.

use crate::calendar::{hour_and_weekday, hour_of, weekday_of, MAX_TIMESTAMP};
use crate::frequency::maths::{add_row, as_sums, rows_of_counts, summed, zeros_u64};
use crate::histogram::{lemma_count_within_total, lemma_tally_of, tally_of, total_of, Histogram};
use crate::maths::zeros_u32;
use crate::parse::{DataFields, Record};
use crate::utils::{
    as_counts, freq_vector, gen_vector_from_freq_map, gen_vector_from_str, one_hot,
};
use crate::vocabulary::set_items;
use indexmap::IndexSet;
use vstd::prelude::*;

verus! {

/// One trace of a user: the histograms of the values of its events.
#[derive(Debug)]
pub struct FreqTrace {
    pub url: Histogram,
    pub domain: Histogram,
    pub category: Histogram,
    /// The age group of the user, as the first event of the trace gives it.
    pub age: String,
    /// The gender of the user, as the first event of the trace gives it.
    pub gender: String,
    /// The number of events in each hour of the day.
    pub hour: Vec<u32>,
    /// The number of events on each day of the week, from Monday on.
    pub day: Vec<u32>,
    pub start_time: u64,
    pub end_time: u64,
}

/// A trace as vectors over the vocabularies of one comparison.
#[derive(Debug, Clone)]
pub struct VectFreqTrace<T> {
    pub url: Vec<T>,
    pub domain: Vec<T>,
    pub category: Vec<T>,
    pub hour: Vec<T>,
    pub day: Vec<T>,
    pub age: Vec<T>,
    pub gender: Vec<T>,
}

/// The URLs of a sequence of records.
pub open spec fn urls_of(records: Seq<Record>) -> Seq<Seq<char>> {
    records.map_values(|r: Record| r.url@)
}

/// The domains of a sequence of records.
pub open spec fn domains_of(records: Seq<Record>) -> Seq<Seq<char>> {
    records.map_values(|r: Record| r.domain@)
}

/// The categories of a sequence of records.
pub open spec fn categories_of(records: Seq<Record>) -> Seq<Seq<char>> {
    records.map_values(|r: Record| r.category@)
}

/// The number of records in the hour `h` of the day.
pub open spec fn events_in_hour(records: Seq<Record>, h: int) -> nat
    decreases records.len(),
{
    if records.len() == 0 {
        0
    } else {
        events_in_hour(records.drop_last(), h) + if hour_of(records.last().timestamp) == h {
            1nat
        } else {
            0nat
        }
    }
}

/// The number of records on the day `d` of the week.
pub open spec fn events_on_day(records: Seq<Record>, d: int) -> nat
    decreases records.len(),
{
    if records.len() == 0 {
        0
    } else {
        events_on_day(records.drop_last(), d) + if weekday_of(records.last().timestamp) == d {
            1nat
        } else {
            0nat
        }
    }
}

/// No hour and no day has more records than there are.
pub proof fn lemma_events_bounded(records: Seq<Record>, x: int)
    ensures
        events_in_hour(records, x) <= records.len(),
        events_on_day(records, x) <= records.len(),
    decreases records.len(),
{
    if records.len() > 0 {
        lemma_events_bounded(records.drop_last(), x);
    }
}

impl FreqTrace {
    /// The histograms are well formed, there are 24 hours and 7 days, and
    /// the trace does not end before it starts.
    pub open spec fn wf(&self) -> bool {
        &&& self.url.wf()
        &&& self.domain.wf()
        &&& self.category.wf()
        &&& self.hour@.len() == 24
        &&& self.day@.len() == 7
        &&& self.start_time <= self.end_time
    }

    /// The two traces hold the same values.
    pub open spec fn same_as(&self, other: &FreqTrace) -> bool {
        &&& self.url@ == other.url@
        &&& self.domain@ == other.domain@
        &&& self.category@ == other.category@
        &&& self.age@ == other.age@
        &&& self.gender@ == other.gender@
        &&& self.hour@ == other.hour@
        &&& self.day@ == other.day@
        &&& self.start_time == other.start_time
        &&& self.end_time == other.end_time
    }

    /// The trace is the summary of the records: the histograms of their
    /// values, the counts of their hours and days, the age and gender of the
    /// first, and the timestamps of the first and the last.
    pub open spec fn summarizes(&self, records: Seq<Record>) -> bool {
        &&& records.len() > 0
        &&& self.wf()
        &&& self.url@ == tally_of(urls_of(records))
        &&& self.domain@ == tally_of(domains_of(records))
        &&& self.category@ == tally_of(categories_of(records))
        &&& self.age@ == records[0].age@
        &&& self.gender@ == records[0].gender@
        &&& forall|h: int| 0 <= h < 24 ==> (#[trigger] self.hour@[h]) == events_in_hour(records, h)
        &&& forall|d: int| 0 <= d < 7 ==> (#[trigger] self.day@[d]) == events_on_day(records, d)
        &&& self.start_time == records[0].timestamp
        &&& self.end_time == records.last().timestamp
    }

    /// The number of events of a trace: the total of its URL histogram.
    pub open spec fn event_count(&self) -> nat {
        total_of(self.url@)
    }
}

/// A trace has as many events as the records that it summarizes.
pub proof fn lemma_summary_event_count(trace: FreqTrace, records: Seq<Record>)
    requires
        trace.summarizes(records),
    ensures
        trace.event_count() == records.len(),
        total_of(trace.domain@) == records.len(),
        total_of(trace.category@) == records.len(),
{
    lemma_tally_of(urls_of(records));
    lemma_tally_of(domains_of(records));
    lemma_tally_of(categories_of(records));
}

/// Copies a vector of counts.
pub fn copy_counts(counts: &Vec<u32>) -> (copy: Vec<u32>)
    ensures
        copy@ == counts@,
{
    let mut copy: Vec<u32> = Vec::new();
    let mut i: usize = 0;
    while i < counts.len()
        invariant
            i <= counts.len(),
            copy@ == counts@.take(i as int),
        decreases counts.len() - i,
    {
        copy.push(counts[i]);
        assert(copy@ =~= counts@.take(i + 1));
        i = i + 1;
    }
    assert(counts@.take(counts.len() as int) =~= counts@);
    copy
}

impl Clone for FreqTrace {
    fn clone(&self) -> (copy: FreqTrace)
        ensures
            copy.same_as(self),
            self.wf() ==> copy.wf(),
    {
        FreqTrace {
            url: self.url.clone(),
            domain: self.domain.clone(),
            category: self.category.clone(),
            age: self.age.clone(),
            gender: self.gender.clone(),
            hour: copy_counts(&self.hour),
            day: copy_counts(&self.day),
            start_time: self.start_time,
            end_time: self.end_time,
        }
    }
}

/// Summarizes the records `[a, b)`, the events of one trace.
pub fn summarize(records: &Vec<Record>, a: usize, b: usize) -> (trace: FreqTrace)
    requires
        a < b <= records.len(),
        b - a <= u32::MAX,
        forall|k: int| a <= k < b ==> (#[trigger] records@[k]).timestamp <= MAX_TIMESTAMP,
        records@[a as int].timestamp <= records@[b - 1].timestamp,
    ensures
        trace.summarizes(records@.subrange(a as int, b as int)),
{
    let mut url = Histogram::new();
    let mut domain = Histogram::new();
    let mut category = Histogram::new();
    let mut hour = zeros_u32(24);
    let mut day = zeros_u32(7);
    let mut k: usize = a;
    let ghost all = records@.subrange(a as int, b as int);
    assert(all.take(0) =~= Seq::<Record>::empty());
    assert(urls_of(all.take(0)) =~= Seq::<Seq<char>>::empty());
    assert(domains_of(all.take(0)) =~= Seq::<Seq<char>>::empty());
    assert(categories_of(all.take(0)) =~= Seq::<Seq<char>>::empty());
    while k < b
        invariant
            a <= k <= b <= records.len(),
            b - a <= u32::MAX,
            all == records@.subrange(a as int, b as int),
            forall|j: int| a <= j < b ==> (#[trigger] records@[j]).timestamp <= MAX_TIMESTAMP,
            url.wf(),
            domain.wf(),
            category.wf(),
            url@ == tally_of(urls_of(all.take(k - a))),
            domain@ == tally_of(domains_of(all.take(k - a))),
            category@ == tally_of(categories_of(all.take(k - a))),
            hour@.len() == 24,
            day@.len() == 7,
            forall|h: int|
                0 <= h < 24 ==> (#[trigger] hour@[h]) == events_in_hour(all.take(k - a), h),
            forall|d: int| 0 <= d < 7 ==> (#[trigger] day@[d]) == events_on_day(all.take(k - a), d),
        decreases b - k,
    {
        let record = &records[k];
        let ghost seen = all.take(k - a);
        let ghost next = all.take(k - a + 1);
        proof {
            assert(next.drop_last() =~= seen);
            assert(next.last() == records@[k as int]);
            assert(urls_of(next).drop_last() =~= urls_of(seen));
            assert(domains_of(next).drop_last() =~= domains_of(seen));
            assert(categories_of(next).drop_last() =~= categories_of(seen));
            lemma_tally_of(urls_of(seen));
            lemma_tally_of(domains_of(seen));
            lemma_tally_of(categories_of(seen));
            lemma_count_within_total(url@, record.url@);
            lemma_count_within_total(domain@, record.domain@);
            lemma_count_within_total(category@, record.category@);
        }
        url.record(&record.url);
        domain.record(&record.domain);
        category.record(&record.category);
        let (h, d) = hour_and_weekday(record.timestamp);
        proof {
            lemma_events_bounded(seen, h as int);
            lemma_events_bounded(seen, d as int);
        }
        let in_hour: u32 = hour[h as usize];
        hour.set(h as usize, in_hour + 1);
        let on_day: u32 = day[d as usize];
        day.set(d as usize, on_day + 1);
        k = k + 1;
    }
    assert(all.take(b - a) =~= all);
    FreqTrace {
        url,
        domain,
        category,
        age: records[a].age.clone(),
        gender: records[a].gender.clone(),
        hour,
        day,
        start_time: records[a].timestamp,
        end_time: records[b - 1].timestamp,
    }
}

/// The vocabulary holds every value of the histogram.
pub open spec fn covers(items: Seq<Seq<char>>, h: Seq<(Seq<char>, nat)>) -> bool {
    forall|k: int| 0 <= k < h.len() ==> items.contains((#[trigger] h[k]).0)
}

/// The vocabularies hold every value of the trace.
pub open spec fn vocabularies_cover(
    trace: FreqTrace,
    url_items: Seq<Seq<char>>,
    domain_items: Seq<Seq<char>>,
    category_items: Seq<Seq<char>>,
    age_items: Seq<Seq<char>>,
    gender_items: Seq<Seq<char>>,
) -> bool {
    &&& covers(url_items, trace.url@)
    &&& covers(domain_items, trace.domain@)
    &&& covers(category_items, trace.category@)
    &&& age_items.contains(trace.age@)
    &&& gender_items.contains(trace.gender@)
}

/// The vector of one field of a trace over the vocabulary of that field:
/// the frequency vector of a histogram, the one-hot vector of age or gender,
/// or the counts of hours or days as they are.
pub open spec fn field_vector(trace: FreqTrace, field: DataFields, items: Seq<Seq<char>>) -> Seq<
    nat,
> {
    match field {
        DataFields::Url => freq_vector(trace.url@, items),
        DataFields::Domain => freq_vector(trace.domain@, items),
        DataFields::Category => freq_vector(trace.category@, items),
        DataFields::Age => one_hot(items, trace.age@),
        DataFields::Gender => one_hot(items, trace.gender@),
        DataFields::Hour => as_counts(trace.hour@),
        DataFields::Day => as_counts(trace.day@),
        DataFields::ActiveSeconds => Seq::empty(),
    }
}

/// The vectors are those of the fields of the trace over the vocabularies.
pub open spec fn is_vectorized(
    vect: VectFreqTrace<u32>,
    trace: FreqTrace,
    url_items: Seq<Seq<char>>,
    domain_items: Seq<Seq<char>>,
    category_items: Seq<Seq<char>>,
    age_items: Seq<Seq<char>>,
    gender_items: Seq<Seq<char>>,
) -> bool {
    &&& as_counts(vect.url@) == field_vector(trace, DataFields::Url, url_items)
    &&& as_counts(vect.domain@) == field_vector(trace, DataFields::Domain, domain_items)
    &&& as_counts(vect.category@) == field_vector(trace, DataFields::Category, category_items)
    &&& as_counts(vect.age@) == field_vector(trace, DataFields::Age, age_items)
    &&& as_counts(vect.gender@) == field_vector(trace, DataFields::Gender, gender_items)
    &&& as_counts(vect.hour@) == field_vector(trace, DataFields::Hour, Seq::empty())
    &&& as_counts(vect.day@) == field_vector(trace, DataFields::Day, Seq::empty())
}

/// Transforms the histograms of a trace into vectors over the vocabularies
/// of one comparison.
pub fn vectorize_trace(
    trace: &FreqTrace,
    url_set: &IndexSet<String>,
    domain_set: &IndexSet<String>,
    category_set: &IndexSet<String>,
    age_set: &IndexSet<String>,
    gender_set: &IndexSet<String>,
) -> (vect: VectFreqTrace<u32>)
    requires
        trace.wf(),
        vocabularies_cover(
            *trace,
            set_items(*url_set),
            set_items(*domain_set),
            set_items(*category_set),
            set_items(*age_set),
            set_items(*gender_set),
        ),
    ensures
        is_vectorized(
            vect,
            *trace,
            set_items(*url_set),
            set_items(*domain_set),
            set_items(*category_set),
            set_items(*age_set),
            set_items(*gender_set),
        ),
{
    VectFreqTrace {
        url: gen_vector_from_freq_map(&trace.url, url_set),
        domain: gen_vector_from_freq_map(&trace.domain, domain_set),
        category: gen_vector_from_freq_map(&trace.category, category_set),
        age: gen_vector_from_str(trace.age.as_str(), age_set),
        gender: gen_vector_from_str(trace.gender.as_str(), gender_set),
        day: copy_counts(&trace.day),
        hour: copy_counts(&trace.hour),
    }
}

/// The vectors of one field of the traces, one row for each trace.
pub open spec fn field_rows(traces: Seq<FreqTrace>, field: DataFields, items: Seq<Seq<char>>) -> Seq<
    Seq<nat>,
> {
    traces.map_values(|t: FreqTrace| field_vector(t, field, items))
}

/// The vectors are the position-wise sums of the vectors of the traces.
pub open spec fn is_summed(
    sums: VectFreqTrace<u64>,
    traces: Seq<FreqTrace>,
    url_items: Seq<Seq<char>>,
    domain_items: Seq<Seq<char>>,
    category_items: Seq<Seq<char>>,
    age_items: Seq<Seq<char>>,
    gender_items: Seq<Seq<char>>,
) -> bool {
    &&& as_sums(sums.url@) == summed(
        field_rows(traces, DataFields::Url, url_items),
        url_items.len(),
    )
    &&& as_sums(sums.domain@) == summed(
        field_rows(traces, DataFields::Domain, domain_items),
        domain_items.len(),
    )
    &&& as_sums(sums.category@) == summed(
        field_rows(traces, DataFields::Category, category_items),
        category_items.len(),
    )
    &&& as_sums(sums.age@) == summed(
        field_rows(traces, DataFields::Age, age_items),
        age_items.len(),
    )
    &&& as_sums(sums.gender@) == summed(
        field_rows(traces, DataFields::Gender, gender_items),
        gender_items.len(),
    )
    &&& as_sums(sums.hour@) == summed(field_rows(traces, DataFields::Hour, Seq::empty()), 24)
    &&& as_sums(sums.day@) == summed(field_rows(traces, DataFields::Day, Seq::empty()), 7)
}

/// The rows of a field hold only counts, and have the width of the field.
spec fn rows_fit(traces: Seq<FreqTrace>, field: DataFields, items: Seq<Seq<char>>, width: nat) -> bool {
    rows_of_counts(field_rows(traces, field, items), width)
}

/// Generates the sums from which the typical vectors of a list of traces
/// come: for each field the position-wise sum of the vectors of the traces.
/// The typical vector of a field is its sum divided by the number of traces.
pub fn gen_typical_vect_trace(
    traces: &Vec<FreqTrace>,
    url_set: &IndexSet<String>,
    domain_set: &IndexSet<String>,
    category_set: &IndexSet<String>,
    age_set: &IndexSet<String>,
    gender_set: &IndexSet<String>,
) -> (sums: VectFreqTrace<u64>)
    requires
        traces@.len() < u32::MAX,
        forall|k: int|
            0 <= k < traces@.len() ==> (#[trigger] traces@[k]).wf() && vocabularies_cover(
                traces@[k],
                set_items(*url_set),
                set_items(*domain_set),
                set_items(*category_set),
                set_items(*age_set),
                set_items(*gender_set),
            ),
    ensures
        is_summed(
            sums,
            traces@,
            set_items(*url_set),
            set_items(*domain_set),
            set_items(*category_set),
            set_items(*age_set),
            set_items(*gender_set),
        ),
{
    let ghost url_items = set_items(*url_set);
    let ghost domain_items = set_items(*domain_set);
    let ghost category_items = set_items(*category_set);
    let ghost age_items = set_items(*age_set);
    let ghost gender_items = set_items(*gender_set);
    let ghost none = Seq::<Seq<char>>::empty();
    let mut url_vec = zeros_u64(crate::vocabulary::set_len(url_set));
    let mut domain_vec = zeros_u64(crate::vocabulary::set_len(domain_set));
    let mut category_vec = zeros_u64(crate::vocabulary::set_len(category_set));
    let mut age_vec = zeros_u64(crate::vocabulary::set_len(age_set));
    let mut gender_vec = zeros_u64(crate::vocabulary::set_len(gender_set));
    let mut hour_vec = zeros_u64(24);
    let mut day_vec = zeros_u64(7);
    let mut k: usize = 0;
    proof {
        assert(traces@.take(0) =~= Seq::<FreqTrace>::empty());
        assert(as_sums(url_vec@) =~= summed(Seq::empty(), url_items.len()));
        assert(as_sums(domain_vec@) =~= summed(Seq::empty(), domain_items.len()));
        assert(as_sums(category_vec@) =~= summed(Seq::empty(), category_items.len()));
        assert(as_sums(age_vec@) =~= summed(Seq::empty(), age_items.len()));
        assert(as_sums(gender_vec@) =~= summed(Seq::empty(), gender_items.len()));
        assert(as_sums(hour_vec@) =~= summed(Seq::empty(), 24));
        assert(as_sums(day_vec@) =~= summed(Seq::empty(), 7));
        assert(field_rows(traces@.take(0), DataFields::Url, url_items) =~= Seq::empty());
        assert(field_rows(traces@.take(0), DataFields::Domain, domain_items) =~= Seq::empty());
        assert(field_rows(traces@.take(0), DataFields::Category, category_items) =~= Seq::empty());
        assert(field_rows(traces@.take(0), DataFields::Age, age_items) =~= Seq::empty());
        assert(field_rows(traces@.take(0), DataFields::Gender, gender_items) =~= Seq::empty());
        assert(field_rows(traces@.take(0), DataFields::Hour, none) =~= Seq::empty());
        assert(field_rows(traces@.take(0), DataFields::Day, none) =~= Seq::empty());
    }
    while k < traces.len()
        invariant
            k <= traces@.len() < u32::MAX,
            url_items == set_items(*url_set),
            domain_items == set_items(*domain_set),
            category_items == set_items(*category_set),
            age_items == set_items(*age_set),
            gender_items == set_items(*gender_set),
            none == Seq::<Seq<char>>::empty(),
            forall|j: int|
                0 <= j < traces@.len() ==> (#[trigger] traces@[j]).wf() && vocabularies_cover(
                    traces@[j],
                    url_items,
                    domain_items,
                    category_items,
                    age_items,
                    gender_items,
                ),
            rows_fit(traces@.take(k as int), DataFields::Url, url_items, url_items.len()),
            rows_fit(traces@.take(k as int), DataFields::Domain, domain_items, domain_items.len()),
            rows_fit(
                traces@.take(k as int),
                DataFields::Category,
                category_items,
                category_items.len(),
            ),
            rows_fit(traces@.take(k as int), DataFields::Age, age_items, age_items.len()),
            rows_fit(traces@.take(k as int), DataFields::Gender, gender_items, gender_items.len()),
            rows_fit(traces@.take(k as int), DataFields::Hour, none, 24),
            rows_fit(traces@.take(k as int), DataFields::Day, none, 7),
            is_summed(
                VectFreqTrace {
                    url: url_vec,
                    domain: domain_vec,
                    category: category_vec,
                    hour: hour_vec,
                    day: day_vec,
                    age: age_vec,
                    gender: gender_vec,
                },
                traces@.take(k as int),
                url_items,
                domain_items,
                category_items,
                age_items,
                gender_items,
            ),
        decreases traces@.len() - k,
    {
        let trace = &traces[k];
        let vect = vectorize_trace(
            trace,
            url_set,
            domain_set,
            category_set,
            age_set,
            gender_set,
        );
        let ghost seen = traces@.take(k as int);
        let ghost next = traces@.take(k + 1);
        proof {
            assert(next =~= seen.push(traces@[k as int]));
            assert(field_rows(next, DataFields::Url, url_items) =~= field_rows(
                seen,
                DataFields::Url,
                url_items,
            ).push(as_counts(vect.url@)));
            assert(field_rows(next, DataFields::Domain, domain_items) =~= field_rows(
                seen,
                DataFields::Domain,
                domain_items,
            ).push(as_counts(vect.domain@)));
            assert(field_rows(next, DataFields::Category, category_items) =~= field_rows(
                seen,
                DataFields::Category,
                category_items,
            ).push(as_counts(vect.category@)));
            assert(field_rows(next, DataFields::Age, age_items) =~= field_rows(
                seen,
                DataFields::Age,
                age_items,
            ).push(as_counts(vect.age@)));
            assert(field_rows(next, DataFields::Gender, gender_items) =~= field_rows(
                seen,
                DataFields::Gender,
                gender_items,
            ).push(as_counts(vect.gender@)));
            assert(field_rows(next, DataFields::Hour, none) =~= field_rows(
                seen,
                DataFields::Hour,
                none,
            ).push(as_counts(vect.hour@)));
            assert(field_rows(next, DataFields::Day, none) =~= field_rows(
                seen,
                DataFields::Day,
                none,
            ).push(as_counts(vect.day@)));
            assert(as_counts(vect.url@).len() == url_items.len());
            assert(as_counts(vect.domain@).len() == domain_items.len());
            assert(as_counts(vect.category@).len() == category_items.len());
            assert(as_counts(vect.age@).len() == age_items.len());
            assert(as_counts(vect.gender@).len() == gender_items.len());
            assert(as_counts(vect.hour@).len() == 24);
            assert(as_counts(vect.day@).len() == 7);
        }
        url_vec = add_row(url_vec, &vect.url, Ghost(field_rows(seen, DataFields::Url, url_items)));
        domain_vec = add_row(
            domain_vec,
            &vect.domain,
            Ghost(field_rows(seen, DataFields::Domain, domain_items)),
        );
        category_vec = add_row(
            category_vec,
            &vect.category,
            Ghost(field_rows(seen, DataFields::Category, category_items)),
        );
        age_vec = add_row(age_vec, &vect.age, Ghost(field_rows(seen, DataFields::Age, age_items)));
        gender_vec = add_row(
            gender_vec,
            &vect.gender,
            Ghost(field_rows(seen, DataFields::Gender, gender_items)),
        );
        hour_vec = add_row(hour_vec, &vect.hour, Ghost(field_rows(seen, DataFields::Hour, none)));
        day_vec = add_row(day_vec, &vect.day, Ghost(field_rows(seen, DataFields::Day, none)));
        k = k + 1;
    }
    assert(traces@.take(traces@.len() as int) =~= traces@);
    VectFreqTrace {
        url: url_vec,
        domain: domain_vec,
        category: category_vec,
        hour: hour_vec,
        day: day_vec,
        age: age_vec,
        gender: gender_vec,
    }
}

} // verus!
