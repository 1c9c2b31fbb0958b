//! Traces of the alignment-based approach and the typical trace of a list of
//! traces.

use crate::calendar::{hour_of, weekday_of};
use crate::frequency::trace::{categories_of, copy_counts, domains_of, urls_of};
use crate::parse::Record;
use crate::utils::{get_most_freq_element, most_frequent_position, occurrences, wins_vote};
use crate::vocabulary::distinct_in_order;
use vstd::prelude::*;

verus! {

/// One trace of a user: for each event the codes of its values, in the
/// order of the events.
#[derive(Debug)]
pub struct SeqTrace {
    pub url: Vec<u32>,
    pub domain: Vec<u32>,
    pub category: Vec<u32>,
    /// The hour of the day of each event.
    pub hour: Vec<u32>,
    /// The day of the week of the last event, from Monday on.
    pub day: u32,
    pub start_time: u64,
    pub end_time: u64,
    pub age: String,
    pub gender: String,
}

/// `x` wins the majority vote over `s`: no element occurs more often, and of
/// those that occur as often it is the one that occurs first.
pub open spec fn is_vote_winner<A>(s: Seq<A>, x: A) -> bool {
    exists|b: int| wins_vote(s, b) && s[b] == x
}

/// The items at place `i` of the sequences that are long enough to have
/// one, in the order of the sequences.
pub open spec fn column(seqs: Seq<Seq<u32>>, i: int) -> Seq<u32>
    decreases seqs.len(),
{
    if seqs.len() == 0 {
        Seq::empty()
    } else if seqs.last().len() > i {
        column(seqs.drop_last(), i).push(seqs.last()[i])
    } else {
        column(seqs.drop_last(), i)
    }
}

/// The codes stand for the values of the records from `a` on: each is the
/// index of its value in the vocabulary.
pub open spec fn codes_match(
    codes: Seq<u32>,
    items: Seq<Seq<char>>,
    values: Seq<Seq<char>>,
    a: int,
) -> bool {
    forall|i: int|
        0 <= i < codes.len() ==> (#[trigger] codes[i]) < items.len() && items[codes[i] as int]
            == values[a + i]
}

impl SeqTrace {
    /// The trace has one code of each field for each event.
    pub open spec fn wf(&self) -> bool {
        &&& self.url@.len() == self.domain@.len()
        &&& self.url@.len() == self.category@.len()
        &&& self.url@.len() == self.hour@.len()
    }

    /// The trace is the summary of the records `[a, b)` of a stream: the
    /// codes of their values in the vocabularies of the stream, the hour of
    /// each, the day of the last, the age and gender of the first, and the
    /// timestamps of the first and the last.
    pub open spec fn summarizes(&self, records: Seq<Record>, a: int, b: int) -> bool {
        &&& 0 <= a < b <= records.len()
        &&& self.wf()
        &&& self.url@.len() == b - a
        &&& codes_match(self.url@, distinct_in_order(urls_of(records)), urls_of(records), a)
        &&& codes_match(
            self.domain@,
            distinct_in_order(domains_of(records)),
            domains_of(records),
            a,
        )
        &&& codes_match(
            self.category@,
            distinct_in_order(categories_of(records)),
            categories_of(records),
            a,
        )
        &&& forall|i: int|
            0 <= i < b - a ==> (#[trigger] self.hour@[i]) == hour_of(records[a + i].timestamp)
        &&& self.day == weekday_of(records[b - 1].timestamp)
        &&& self.age@ == records[a].age@
        &&& self.gender@ == records[a].gender@
        &&& self.start_time == records[a].timestamp
        &&& self.end_time == records[b - 1].timestamp
    }
}

impl SeqTrace {
    /// The two traces hold the same values.
    pub open spec fn same_as(&self, other: &SeqTrace) -> bool {
        &&& self.url@ == other.url@
        &&& self.domain@ == other.domain@
        &&& self.category@ == other.category@
        &&& self.hour@ == other.hour@
        &&& self.day == other.day
        &&& self.age@ == other.age@
        &&& self.gender@ == other.gender@
        &&& self.start_time == other.start_time
        &&& self.end_time == other.end_time
    }
}

impl Clone for SeqTrace {
    fn clone(&self) -> (copy: SeqTrace)
        ensures
            copy.same_as(self),
    {
        SeqTrace {
            url: copy_counts(&self.url),
            domain: copy_counts(&self.domain),
            category: copy_counts(&self.category),
            hour: copy_counts(&self.hour),
            day: self.day,
            start_time: self.start_time,
            end_time: self.end_time,
            age: self.age.clone(),
            gender: self.gender.clone(),
        }
    }
}

/// The traces of a history at the given indices, in their order.
pub open spec fn selected<T>(traces: Seq<T>, indices: Seq<usize>) -> Seq<T> {
    indices.map_values(|i: usize| traces[i as int])
}

/// Two lists of traces hold the same values, trace by trace.
pub open spec fn same_traces(a: Seq<SeqTrace>, b: Seq<SeqTrace>) -> bool {
    &&& a.len() == b.len()
    &&& forall|k: int| 0 <= k < a.len() ==> (#[trigger] a[k]).same_as(&b[k])
}

/// The typical trace of a list of traces is the typical trace of every list
/// that holds the same values.
pub proof fn lemma_typical_of_same(typical: SeqTrace, a: Seq<SeqTrace>, b: Seq<SeqTrace>)
    requires
        is_typical_trace(typical, a),
        same_traces(a, b),
    ensures
        is_typical_trace(typical, b),
{
    assert(a.map_values(|t: SeqTrace| t.url.len()) =~= b.map_values(|t: SeqTrace| t.url.len()));
    assert(a.map_values(|t: SeqTrace| t.day) =~= b.map_values(|t: SeqTrace| t.day));
    assert(a.map_values(|t: SeqTrace| t.age@) =~= b.map_values(|t: SeqTrace| t.age@));
    assert(a.map_values(|t: SeqTrace| t.gender@) =~= b.map_values(|t: SeqTrace| t.gender@));
    assert(url_seqs(a) =~= url_seqs(b));
    assert(domain_seqs(a) =~= domain_seqs(b));
    assert(category_seqs(a) =~= category_seqs(b));
    assert(hour_seqs(a) =~= hour_seqs(b));
}

/// Copies the traces of a history at the given indices.
pub fn sampled_traces(traces: &Vec<SeqTrace>, indices: &Vec<usize>) -> (sampled: Vec<SeqTrace>)
    requires
        forall|k: int| 0 <= k < indices@.len() ==> (#[trigger] indices@[k]) < traces@.len(),
    ensures
        same_traces(sampled@, selected(traces@, indices@)),
{
    let mut sampled: Vec<SeqTrace> = Vec::new();
    let mut k: usize = 0;
    while k < indices.len()
        invariant
            k <= indices@.len(),
            forall|j: int| 0 <= j < indices@.len() ==> (#[trigger] indices@[j]) < traces@.len(),
            sampled@.len() == k,
            forall|j: int|
                0 <= j < k ==> (#[trigger] sampled@[j]).same_as(&traces@[indices@[j] as int]),
        decreases indices@.len() - k,
    {
        sampled.push(traces[indices[k]].clone());
        k = k + 1;
    }
    sampled
}

/// The URL sequences of a list of traces.
pub open spec fn url_seqs(traces: Seq<SeqTrace>) -> Seq<Seq<u32>> {
    traces.map_values(|t: SeqTrace| t.url@)
}

/// The domain sequences of a list of traces.
pub open spec fn domain_seqs(traces: Seq<SeqTrace>) -> Seq<Seq<u32>> {
    traces.map_values(|t: SeqTrace| t.domain@)
}

/// The category sequences of a list of traces.
pub open spec fn category_seqs(traces: Seq<SeqTrace>) -> Seq<Seq<u32>> {
    traces.map_values(|t: SeqTrace| t.category@)
}

/// The hour sequences of a list of traces.
pub open spec fn hour_seqs(traces: Seq<SeqTrace>) -> Seq<Seq<u32>> {
    traces.map_values(|t: SeqTrace| t.hour@)
}

/// The trace is the typical trace of the list: its length, its day, its age
/// and its gender win the majority vote over those of the traces, and the
/// item of each field at each place wins the vote over the items at that
/// place of the traces that are long enough. It has no time span.
pub open spec fn is_typical_trace(typical: SeqTrace, traces: Seq<SeqTrace>) -> bool {
    &&& typical.wf()
    &&& is_vote_winner(traces.map_values(|t: SeqTrace| t.url.len()), typical.url.len())
    &&& is_vote_winner(traces.map_values(|t: SeqTrace| t.day), typical.day)
    &&& is_vote_winner(traces.map_values(|t: SeqTrace| t.age@), typical.age@)
    &&& is_vote_winner(traces.map_values(|t: SeqTrace| t.gender@), typical.gender@)
    &&& forall|i: int|
        0 <= i < typical.url@.len() ==> is_vote_winner(
            column(url_seqs(traces), i),
            #[trigger] typical.url@[i],
        )
    &&& forall|i: int|
        0 <= i < typical.domain@.len() ==> is_vote_winner(
            column(domain_seqs(traces), i),
            #[trigger] typical.domain@[i],
        )
    &&& forall|i: int|
        0 <= i < typical.category@.len() ==> is_vote_winner(
            column(category_seqs(traces), i),
            #[trigger] typical.category@[i],
        )
    &&& forall|i: int|
        0 <= i < typical.hour@.len() ==> is_vote_winner(
            column(hour_seqs(traces), i),
            #[trigger] typical.hour@[i],
        )
    &&& typical.start_time == 0
    &&& typical.end_time == 0
}

/// Counts the occurrences of `x` among the strings.
fn count_string(values: &Vec<String>, x: &String) -> (count: usize)
    ensures
        count == occurrences(values@.map_values(|s: String| s@), x@),
        count <= values@.len(),
{
    let ghost views = values@.map_values(|s: String| s@);
    let mut count: usize = 0;
    let mut j: usize = 0;
    assert(views.take(0) =~= Seq::<Seq<char>>::empty());
    while j < values.len()
        invariant
            views == values@.map_values(|s: String| s@),
            j <= values.len(),
            count <= j,
            count == occurrences(views.take(j as int), x@),
        decreases values.len() - j,
    {
        proof {
            assert(views.take(j + 1).drop_last() =~= views.take(j as int));
            assert(views.take(j + 1).last() == views[j as int]);
        }
        if values[j] == *x {
            count = count + 1;
        }
        j = j + 1;
    }
    assert(views.take(values.len() as int) =~= views);
    count
}

/// Finds the place of the string that wins the majority vote over a list
/// that is not empty.
pub fn most_frequent_string_position(values: &Vec<String>) -> (best: usize)
    requires
        values@.len() > 0,
    ensures
        wins_vote(values@.map_values(|s: String| s@), best as int),
{
    let ghost views = values@.map_values(|s: String| s@);
    let mut best: usize = 0;
    let mut best_count: usize = count_string(values, &values[0]);
    let mut i: usize = 1;
    while i < values.len()
        invariant
            views == values@.map_values(|s: String| s@),
            1 <= i <= values.len(),
            best < i,
            best_count == occurrences(views, views[best as int]),
            forall|k: int| 0 <= k < i ==> occurrences(views, #[trigger] views[k]) <= best_count,
            forall|k: int| 0 <= k < best ==> occurrences(views, #[trigger] views[k]) < best_count,
        decreases values.len() - i,
    {
        let count = count_string(values, &values[i]);
        if count > best_count {
            best = i;
            best_count = count;
        }
        i = i + 1;
    }
    best
}

/// One of the four fields of a trace that are sequences.
#[derive(Debug, Clone, Copy, PartialEq, Eq, Structural)]
pub enum SequenceField {
    Url,
    Domain,
    Category,
    Hour,
}

/// Collects the items at place `i` of the sequences of one field.
fn collect_column(traces: &Vec<SeqTrace>, field: SequenceField, i: usize) -> (items: Vec<u32>)
    ensures
        items@ == column(field_seqs(traces@, field), i as int),
{
    let ghost seqs = field_seqs(traces@, field);
    let mut items: Vec<u32> = Vec::new();
    let mut k: usize = 0;
    assert(seqs.take(0) =~= Seq::<Seq<u32>>::empty());
    while k < traces.len()
        invariant
            k <= traces.len(),
            seqs == field_seqs(traces@, field),
            seqs.len() == traces@.len(),
            items@ == column(seqs.take(k as int), i as int),
        decreases traces.len() - k,
    {
        proof {
            assert(seqs.take(k + 1).drop_last() =~= seqs.take(k as int));
            assert(seqs.take(k + 1).last() == seqs[k as int]);
        }
        let trace = &traces[k];
        let codes: &Vec<u32> = match field {
            SequenceField::Url => &trace.url,
            SequenceField::Domain => &trace.domain,
            SequenceField::Category => &trace.category,
            SequenceField::Hour => &trace.hour,
        };
        assert(codes@ == seqs[k as int]);
        if codes.len() > i {
            items.push(codes[i]);
        }
        k = k + 1;
    }
    assert(seqs.take(traces.len() as int) =~= seqs);
    items
}

/// The sequences of one of the four sequence fields.
pub open spec fn field_seqs(traces: Seq<SeqTrace>, field: SequenceField) -> Seq<Seq<u32>> {
    match field {
        SequenceField::Url => url_seqs(traces),
        SequenceField::Domain => domain_seqs(traces),
        SequenceField::Category => category_seqs(traces),
        SequenceField::Hour => hour_seqs(traces),
    }
}

/// A sequence that is longer than `i` puts an item into the column `i`.
proof fn lemma_column_not_empty(seqs: Seq<Seq<u32>>, i: int, k: int)
    requires
        0 <= k < seqs.len(),
        0 <= i < seqs[k].len(),
    ensures
        column(seqs, i).len() > 0,
    decreases seqs.len(),
{
    if k < seqs.len() - 1 {
        lemma_column_not_empty(seqs.drop_last(), i, k);
    }
}

/// Votes the typical items of one field, place by place.
fn vote_field(traces: &Vec<SeqTrace>, field: SequenceField, length: usize) -> (typical: Vec<u32>)
    requires
        exists|k: int| 0 <= k < traces@.len() && (#[trigger] field_seqs(traces@, field)[k]).len() == length,
    ensures
        typical@.len() == length,
        forall|i: int|
            0 <= i < length ==> is_vote_winner(
                column(field_seqs(traces@, field), i),
                #[trigger] typical@[i],
            ),
{
    let ghost seqs = field_seqs(traces@, field);
    let mut typical: Vec<u32> = Vec::new();
    let mut i: usize = 0;
    while i < length
        invariant
            i <= length,
            seqs == field_seqs(traces@, field),
            exists|k: int| 0 <= k < traces@.len() && (#[trigger] seqs[k]).len() == length,
            typical@.len() == i,
            forall|j: int| 0 <= j < i ==> is_vote_winner(column(seqs, j), #[trigger] typical@[j]),
        decreases length - i,
    {
        let items = collect_column(traces, field, i);
        proof {
            let k = choose|k: int| 0 <= k < traces@.len() && (#[trigger] seqs[k]).len() == length;
            lemma_column_not_empty(seqs, i as int, k);
        }
        let best = most_frequent_position(items.as_slice());
        let ghost before = typical@;
        typical.push(items[best]);
        assert forall|j: int| 0 <= j < i + 1 implies is_vote_winner(
            column(seqs, j),
            #[trigger] typical@[j],
        ) by {
            if j < i {
                assert(typical@[j] == before[j]);
            } else {
                assert(wins_vote(column(seqs, j), best as int));
            }
        }
        i = i + 1;
    }
    typical
}

/// Generates the typical trace of a list of traces that is not empty: each
/// of its values is the one that most of the traces have.
pub fn gen_typical_trace(traces: &Vec<SeqTrace>) -> (typical: SeqTrace)
    requires
        traces@.len() > 0,
        forall|k: int| 0 <= k < traces@.len() ==> (#[trigger] traces@[k]).wf(),
    ensures
        is_typical_trace(typical, traces@),
{
    let mut lengths: Vec<usize> = Vec::new();
    let mut days: Vec<u32> = Vec::new();
    let mut ages: Vec<String> = Vec::new();
    let mut genders: Vec<String> = Vec::new();
    let mut k: usize = 0;
    while k < traces.len()
        invariant
            k <= traces.len(),
            lengths@ == traces@.take(k as int).map_values(|t: SeqTrace| t.url.len()),
            days@ == traces@.take(k as int).map_values(|t: SeqTrace| t.day),
            ages@.map_values(|s: String| s@) == traces@.take(k as int).map_values(
                |t: SeqTrace| t.age@,
            ),
            genders@.map_values(|s: String| s@) == traces@.take(k as int).map_values(
                |t: SeqTrace| t.gender@,
            ),
        decreases traces.len() - k,
    {
        let trace = &traces[k];
        let ghost seen = traces@.take(k as int);
        let ghost next = traces@.take(k + 1);
        let ghost old_ages = ages@.map_values(|s: String| s@);
        let ghost old_genders = genders@.map_values(|s: String| s@);
        lengths.push(trace.url.len());
        days.push(trace.day);
        ages.push(trace.age.clone());
        genders.push(trace.gender.clone());
        proof {
            assert(next =~= seen.push(traces@[k as int]));
            assert(lengths@ =~= next.map_values(|t: SeqTrace| t.url.len()));
            assert(days@ =~= next.map_values(|t: SeqTrace| t.day));
            assert(ages@.map_values(|s: String| s@) =~= old_ages.push(trace.age@));
            assert(genders@.map_values(|s: String| s@) =~= old_genders.push(trace.gender@));
            assert(ages@.map_values(|s: String| s@) =~= next.map_values(|t: SeqTrace| t.age@));
            assert(genders@.map_values(|s: String| s@) =~= next.map_values(
                |t: SeqTrace| t.gender@,
            ));
        }
        k = k + 1;
    }
    assert(traces@.take(traces.len() as int) =~= traces@);
    let length_at = most_frequent_position(lengths.as_slice());
    let typical_length = lengths[length_at];
    let typical_day = get_most_freq_element(days.as_slice());
    let age_at = most_frequent_string_position(&ages);
    let gender_at = most_frequent_string_position(&genders);
    proof {
        let t = traces@[length_at as int];
        assert(t.wf());
        assert(field_seqs(traces@, SequenceField::Url)[length_at as int].len() == typical_length);
        assert(field_seqs(traces@, SequenceField::Domain)[length_at as int].len() == typical_length);
        assert(field_seqs(traces@, SequenceField::Category)[length_at as int].len() == typical_length);
        assert(field_seqs(traces@, SequenceField::Hour)[length_at as int].len() == typical_length);
    }
    let typical = SeqTrace {
        url: vote_field(traces, SequenceField::Url, typical_length),
        domain: vote_field(traces, SequenceField::Domain, typical_length),
        category: vote_field(traces, SequenceField::Category, typical_length),
        hour: vote_field(traces, SequenceField::Hour, typical_length),
        day: typical_day,
        start_time: 0,
        end_time: 0,
        age: ages[age_at].clone(),
        gender: genders[gender_at].clone(),
    };
    proof {
        assert(ages@.map_values(|s: String| s@)[age_at as int] == typical.age@);
        assert(genders@.map_values(|s: String| s@)[gender_at as int] == typical.gender@);
    }
    typical
}

} // verus!
