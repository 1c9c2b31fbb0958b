//! Segmentation of one user's events into traces.
//!
//! The events of a user, in the order of their timestamps, are cut into
//! chunks: a chunk ends where it has reached the maximum length or where the
//! next event follows after more than the delay limit. A chunk becomes a
//! trace unless it is too short, lasts too long or holds events at too high a
//! rate.

use crate::cli::{Config, Rate};
use crate::parse::Record;
use vstd::prelude::*;

verus! {

/// The timestamps of the records `[lo, hi)` do not decrease.
pub open spec fn chronological(records: Seq<Record>, lo: int, hi: int) -> bool {
    forall|k: int| lo < k < hi ==> records[k - 1].timestamp <= (#[trigger] records[k]).timestamp
}

/// The seconds between a record and the one before it.
pub open spec fn gap_before(records: Seq<Record>, k: int) -> int {
    records[k].timestamp - records[k - 1].timestamp
}

/// Whether the record at `k` begins a new chunk, where the current one began
/// at `start`.
pub open spec fn breaks_before(records: Seq<Record>, config: Config, start: int, k: int) -> bool {
    k - start >= config.max_trace_len || gap_before(records, k) > config.delay_limit
}

/// The end of the chunk that began at `start`, where the records up to `k`
/// are known to belong to it.
pub open spec fn chunk_end(records: Seq<Record>, config: Config, hi: int, start: int, k: int) -> int
    decreases hi - k,
{
    if k >= hi {
        hi
    } else if breaks_before(records, config, start, k) {
        k
    } else {
        chunk_end(records, config, hi, start, k + 1)
    }
}

/// The seconds from the first to the last record of the chunk `[a, b)`.
pub open spec fn duration_of(records: Seq<Record>, a: int, b: int) -> int {
    records[b - 1].timestamp - records[a].timestamp
}

/// Whether `len` events in `duration` seconds are more than the rate allows.
/// A chunk without duration exceeds every rate that names a time span.
pub open spec fn exceeds_rate(len: int, duration: int, max_rate: Option<Rate>) -> bool {
    match max_rate {
        Some(rate) => len * rate.seconds > rate.events * duration,
        None => false,
    }
}

/// Whether the chunk `[a, b)` becomes a trace.
pub open spec fn keeps_chunk(records: Seq<Record>, config: Config, a: int, b: int) -> bool {
    &&& b - a >= config.min_trace_len
    &&& duration_of(records, a, b) <= config.max_trace_duration
    &&& !exceeds_rate(b - a, duration_of(records, a, b), config.max_rate)
}

/// The chunks of the records `[start, hi)` that become traces, in order,
/// each as the pair of its first index and the index after its last.
pub open spec fn kept_chunks(records: Seq<Record>, config: Config, hi: int, start: int) -> Seq<
    (int, int),
>
    decreases hi - start,
{
    if start >= hi {
        Seq::empty()
    } else {
        let end = chunk_end(records, config, hi, start, start + 1);
        if end <= start || end > hi {
            Seq::empty()
        } else if keeps_chunk(records, config, start, end) {
            seq![(start, end)] + kept_chunks(records, config, hi, end)
        } else {
            kept_chunks(records, config, hi, end)
        }
    }
}

/// The bounds of a list of chunks as mathematical integers.
pub open spec fn bounds_of(chunks: Seq<(usize, usize)>) -> Seq<(int, int)> {
    chunks.map_values(|c: (usize, usize)| (c.0 as int, c.1 as int))
}

/// Where a chunk ends: after the records that do not break it.
pub proof fn lemma_chunk_end(records: Seq<Record>, config: Config, hi: int, start: int, k: int)
    requires
        start < k <= hi,
    ensures
        k <= chunk_end(records, config, hi, start, k) <= hi,
        forall|j: int|
            k <= j < chunk_end(records, config, hi, start, k) ==> !breaks_before(
                records,
                config,
                start,
                j,
            ),
        chunk_end(records, config, hi, start, k) < hi ==> breaks_before(
            records,
            config,
            start,
            chunk_end(records, config, hi, start, k),
        ),
    decreases hi - k,
{
    if k < hi && !breaks_before(records, config, start, k) {
        lemma_chunk_end(records, config, hi, start, k + 1);
    }
}

/// In chronological records a later record has the later timestamp.
pub proof fn lemma_chronological(records: Seq<Record>, lo: int, hi: int, i: int, j: int)
    requires
        chronological(records, lo, hi),
        lo <= i <= j < hi,
    ensures
        records[i].timestamp <= records[j].timestamp,
    decreases j - i,
{
    if i < j {
        lemma_chronological(records, lo, hi, i, j - 1);
        assert(records[j - 1].timestamp <= records[j].timestamp);
    }
}

/// Every chunk that becomes a trace holds at least one record and lies
/// within the records that were cut.
pub proof fn lemma_kept_chunks_within(
    records: Seq<Record>,
    config: Config,
    hi: int,
    start: int,
    i: int,
)
    requires
        0 <= start <= hi,
        0 <= i < kept_chunks(records, config, hi, start).len(),
    ensures
        start <= kept_chunks(records, config, hi, start)[i].0 < kept_chunks(
            records,
            config,
            hi,
            start,
        )[i].1 <= hi,
    decreases hi - start,
{
    let end = chunk_end(records, config, hi, start, start + 1);
    lemma_chunk_end(records, config, hi, start, start + 1);
    if keeps_chunk(records, config, start, end) {
        if i > 0 {
            lemma_kept_chunks_within(records, config, hi, end, i - 1);
            assert(kept_chunks(records, config, hi, start)[i] == kept_chunks(
                records,
                config,
                hi,
                end,
            )[i - 1]);
        }
    } else {
        lemma_kept_chunks_within(records, config, hi, end, i);
    }
}

/// No more chunks become traces than there are records to cut.
pub proof fn lemma_kept_chunks_count(records: Seq<Record>, config: Config, hi: int, start: int)
    requires
        0 <= start <= hi,
    ensures
        kept_chunks(records, config, hi, start).len() <= hi - start,
    decreases hi - start,
{
    if start < hi {
        let end = chunk_end(records, config, hi, start, start + 1);
        lemma_chunk_end(records, config, hi, start, start + 1);
        lemma_kept_chunks_count(records, config, hi, end);
    }
}

/// Every chunk that becomes a trace lies within the records, in order after
/// the one before it, and meets the rules: its length is between the minimum
/// and the maximum, its duration and its rate are within their limits, and no
/// two neighbours in it are further apart than the delay limit.
pub proof fn lemma_kept_chunks_meet_rules(
    records: Seq<Record>,
    config: Config,
    hi: int,
    start: int,
    i: int,
)
    requires
        config.max_trace_len >= 1,
        0 <= start <= hi <= records.len(),
        0 <= i < kept_chunks(records, config, hi, start).len(),
    ensures
        ({
            let (a, b) = kept_chunks(records, config, hi, start)[i];
            &&& start <= a < b <= hi
            &&& config.min_trace_len <= b - a <= config.max_trace_len
            &&& duration_of(records, a, b) <= config.max_trace_duration
            &&& !exceeds_rate(b - a, duration_of(records, a, b), config.max_rate)
            &&& forall|k: int| a < k < b ==> gap_before(records, k) <= config.delay_limit
        }),
    decreases hi - start,
{
    let end = chunk_end(records, config, hi, start, start + 1);
    lemma_chunk_end(records, config, hi, start, start + 1);
    if keeps_chunk(records, config, start, end) {
        if i == 0 {
            if end - 1 > start {
                assert(!breaks_before(records, config, start, end - 1));
            }
            assert forall|k: int| start < k < end implies gap_before(records, k)
                <= config.delay_limit by {
                assert(!breaks_before(records, config, start, k));
            }
        } else {
            lemma_kept_chunks_meet_rules(records, config, hi, end, i - 1);
            assert(kept_chunks(records, config, hi, start)[i] == kept_chunks(
                records,
                config,
                hi,
                end,
            )[i - 1]);
        }
    } else {
        lemma_kept_chunks_meet_rules(records, config, hi, end, i);
    }
}

/// Tells whether `len` events in `duration` seconds are more than the rate
/// allows.
pub fn is_rate_exceeded(len: usize, duration: u64, max_rate: Option<Rate>) -> (exceeded: bool)
    ensures
        exceeded == exceeds_rate(len as int, duration as int, max_rate),
{
    match max_rate {
        Some(rate) => {
            assert(0 <= (len as int) * (rate.seconds as int) <= 0xffff_ffff_ffff_ffff
                * 0xffff_ffff_ffff_ffff) by (nonlinear_arith)
                requires
                    0 <= len as int <= 0xffff_ffff_ffff_ffff,
                    0 <= rate.seconds as int <= 0xffff_ffff_ffff_ffff,
            ;
            assert(0 <= (rate.events as int) * (duration as int) <= 0xffff_ffff_ffff_ffff
                * 0xffff_ffff_ffff_ffff) by (nonlinear_arith)
                requires
                    0 <= rate.events as int <= 0xffff_ffff_ffff_ffff,
                    0 <= duration as int <= 0xffff_ffff_ffff_ffff,
            ;
            let events_by_span: u128 = (len as u128) * (rate.seconds as u128);
            let allowed: u128 = (rate.events as u128) * (duration as u128);
            events_by_span > allowed
        },
        None => false,
    }
}

/// Cuts the records `[lo, hi)` of one user into chunks and returns the
/// bounds of those that become traces.
pub fn segment(records: &Vec<Record>, lo: usize, hi: usize, config: &Config) -> (chunks: Vec<
    (usize, usize),
>)
    requires
        lo <= hi <= records.len(),
        chronological(records@, lo as int, hi as int),
    ensures
        bounds_of(chunks@) == kept_chunks(records@, *config, hi as int, lo as int),
{
    let mut chunks: Vec<(usize, usize)> = Vec::new();
    let mut start: usize = lo;
    assert(bounds_of(chunks@) =~= Seq::<(int, int)>::empty());
    while start < hi
        invariant
            lo <= start <= hi <= records.len(),
            chronological(records@, lo as int, hi as int),
            bounds_of(chunks@) + kept_chunks(records@, *config, hi as int, start as int)
                == kept_chunks(records@, *config, hi as int, lo as int),
        decreases hi - start,
    {
        let mut end: usize = start + 1;
        while end < hi && !(end - start >= config.max_trace_len || records[end].timestamp
            - records[end - 1].timestamp > config.delay_limit)
            invariant
                lo <= start < end <= hi <= records.len(),
                chronological(records@, lo as int, hi as int),
                chunk_end(records@, *config, hi as int, start as int, end as int) == chunk_end(
                    records@,
                    *config,
                    hi as int,
                    start as int,
                    start + 1,
                ),
            decreases hi - end,
        {
            end = end + 1;
        }
        proof {
            lemma_chronological(records@, lo as int, hi as int, start as int, end - 1);
            if end < hi {
                assert(records@[end - 1].timestamp <= records@[end as int].timestamp);
            }
        }
        let duration: u64 = records[end - 1].timestamp - records[start].timestamp;
        let ghost before = bounds_of(chunks@);
        let ghost rest = kept_chunks(records@, *config, hi as int, end as int);
        if end - start >= config.min_trace_len && duration <= config.max_trace_duration
            && !is_rate_exceeded(end - start, duration, config.max_rate) {
            chunks.push((start, end));
            assert(bounds_of(chunks@) =~= before + seq![(start as int, end as int)]);
            assert(bounds_of(chunks@) + rest =~= before + (seq![(start as int, end as int)]
                + rest));
        }
        start = end;
    }
    assert(bounds_of(chunks@) + Seq::<(int, int)>::empty() =~= bounds_of(chunks@));
    chunks
}

} // verus!
