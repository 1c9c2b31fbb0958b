//! Ranking of scored candidates and classification of an attack's outcome.
//!
//! A scored entry is a pair of a candidate user and a score key. Score keys
//! are unsigned integers that order exactly as the scores they stand for, so
//! that ranking is a matter of integer comparison. Entries with equal keys
//! keep the order in which they were scored.

use vstd::prelude::*;
use vstd::set_lib::*;

verus! {

/// The direction in which score keys are ranked.
#[derive(Clone, Copy, Debug, PartialEq, Eq, Structural)]
pub enum ScoreOrder {
    /// For distances: the lowest key is the closest match.
    Ascending,
    /// For alignment scores: the highest key is the closest match.
    Descending,
}

/// The score keys of a list of scored entries, in the same order.
pub open spec fn scores_of(scored: Seq<(u32, u64)>) -> Seq<u64> {
    scored.map_values(|e: (u32, u64)| e.1)
}

/// Whether the entry at position `a` is ranked before the one at position
/// `b`: it is closer, or equally close and scored earlier.
pub open spec fn ranks_before(scores: Seq<u64>, order: ScoreOrder, a: int, b: int) -> bool {
    if scores[a] == scores[b] {
        a < b
    } else {
        match order {
            ScoreOrder::Ascending => scores[a] < scores[b],
            ScoreOrder::Descending => scores[a] > scores[b],
        }
    }
}

/// `run` lists positions of `[lo, hi)` so that each is ranked before all that
/// follow it.
pub open spec fn is_ranked_run(
    scores: Seq<u64>,
    order: ScoreOrder,
    run: Seq<usize>,
    lo: int,
    hi: int,
) -> bool {
    &&& 0 <= lo <= hi <= scores.len()
    &&& run.len() == hi - lo
    &&& forall|i: int| 0 <= i < run.len() ==> lo <= (#[trigger] run[i]) < hi
    &&& forall|i: int, j: int|
        #![trigger run[i], run[j]]
        0 <= i < j < run.len() ==> ranks_before(scores, order, run[i] as int, run[j] as int)
}

/// `ranking` is the stable ranking of `scores`: it lists every position once,
/// closest first, equal scores in the order of their positions.
pub open spec fn is_ranking(scores: Seq<u64>, order: ScoreOrder, ranking: Seq<usize>) -> bool {
    is_ranked_run(scores, order, ranking, 0, scores.len() as int)
}

/// The stable ranking of `scores`.
pub open spec fn ranking_of(scores: Seq<u64>, order: ScoreOrder) -> Seq<usize> {
    choose|ranking: Seq<usize>| is_ranking(scores, order, ranking)
}

/// The scored entries in ranked order.
pub open spec fn ranked(scored: Seq<(u32, u64)>, order: ScoreOrder) -> Seq<(u32, u64)> {
    let ranking = ranking_of(scores_of(scored), order);
    Seq::new(scored.len(), |i: int| scored[ranking[i] as int])
}

/// Whether `target` is the candidate of one of the first `k` entries.
pub open spec fn appears_in_first(entries: Seq<(u32, u64)>, target: u32, k: int) -> bool {
    exists|i: int| 0 <= i < k && i < entries.len() && (#[trigger] entries[i]).0 == target
}

/// The classification of an attack on `victim` from the ranked entries:
/// whether the victim is ranked first, is among the first ten entries, and is
/// among the first tenth of the population size.
pub open spec fn classification(
    victim: u32,
    entries: Seq<(u32, u64)>,
    population_size: int,
) -> (bool, bool, bool) {
    (
        entries.len() > 0 && entries[0].0 == victim,
        appears_in_first(entries, victim, 10),
        appears_in_first(entries, victim, population_size / 10),
    )
}

/// A run of distinct positions of `[0, n)` that has length `n` holds every
/// position.
proof fn lemma_ranking_is_onto(scores: Seq<u64>, order: ScoreOrder, ranking: Seq<usize>, p: int)
    requires
        is_ranking(scores, order, ranking),
        0 <= p < scores.len(),
    ensures
        exists|i: int| 0 <= i < ranking.len() && ranking[i] == p,
{
    let n = scores.len() as int;
    let positions = ranking.map_values(|v: usize| v as int);
    assert forall|i: int, j: int|
        0 <= i < positions.len() && 0 <= j < positions.len() && i != j implies positions[i]
        != positions[j] by {
        if i < j {
            assert(ranks_before(scores, order, ranking[i] as int, ranking[j] as int));
        } else {
            assert(ranks_before(scores, order, ranking[j] as int, ranking[i] as int));
        }
    }
    assert(positions.no_duplicates());
    positions.unique_seq_to_set();
    lemma_int_range(0, n);
    assert forall|v: int| positions.to_set().contains(v) implies set_int_range(0, n).contains(
        v,
    ) by {
        let i = choose|i: int| 0 <= i < positions.len() && positions[i] == v;
        assert(positions[i] == ranking[i] as int);
    }
    assert(positions.to_set().subset_of(set_int_range(0, n)));
    lemma_len_subset(positions.to_set(), set_int_range(0, n));
    lemma_subset_equality(positions.to_set(), set_int_range(0, n));
    assert(set_int_range(0, n).contains(p));
    assert(positions.to_set().contains(p));
    let i = choose|i: int| 0 <= i < positions.len() && positions[i] == p;
    assert(ranking[i] == p);
}

/// Ranking is deterministic: two stable rankings of the same scores are the
/// same list of positions.
pub proof fn lemma_ranking_unique(
    scores: Seq<u64>,
    order: ScoreOrder,
    first: Seq<usize>,
    second: Seq<usize>,
)
    requires
        is_ranking(scores, order, first),
        is_ranking(scores, order, second),
    ensures
        first == second,
{
    assert forall|i: int| 0 <= i < first.len() implies first[i] == second[i] by {
        lemma_ranking_agrees_up_to(scores, order, first, second, i);
    }
    assert(first =~= second);
}

proof fn lemma_ranking_agrees_up_to(
    scores: Seq<u64>,
    order: ScoreOrder,
    first: Seq<usize>,
    second: Seq<usize>,
    i: int,
)
    requires
        is_ranking(scores, order, first),
        is_ranking(scores, order, second),
        0 <= i < first.len(),
    ensures
        forall|k: int| 0 <= k <= i ==> first[k] == second[k],
    decreases i,
{
    if i > 0 {
        lemma_ranking_agrees_up_to(scores, order, first, second, i - 1);
    }
    let a = first[i];
    let b = second[i];
    if a != b {
        // Each of the two is found in the other ranking, at a later place.
        lemma_ranking_is_onto(scores, order, second, a as int);
        let j = choose|j: int| 0 <= j < second.len() && second[j] == a;
        if j < i {
            assert(first[j] == second[j]);
            assert(ranks_before(scores, order, first[j] as int, first[i] as int));
        }
        assert(j > i);
        assert(ranks_before(scores, order, second[i] as int, second[j] as int));
        lemma_ranking_is_onto(scores, order, first, b as int);
        let l = choose|l: int| 0 <= l < first.len() && first[l] == b;
        if l < i {
            assert(first[l] == second[l]);
            assert(ranks_before(scores, order, second[l] as int, second[i] as int));
        }
        assert(l > i);
        assert(ranks_before(scores, order, first[i] as int, first[l] as int));
    }
}

/// The first place of a run from `i` on whose position is not ranked before
/// the position `new`.
spec fn insertion_place(scores: Seq<u64>, order: ScoreOrder, run: Seq<usize>, new: int, i: int) -> int
    decreases run.len() - i,
{
    if i >= run.len() || !ranks_before(scores, order, run[i] as int, new) {
        i
    } else {
        insertion_place(scores, order, run, new, i + 1)
    }
}

proof fn lemma_insertion_place(
    scores: Seq<u64>,
    order: ScoreOrder,
    run: Seq<usize>,
    new: int,
    i: int,
)
    requires
        0 <= i <= run.len(),
    ensures
        i <= insertion_place(scores, order, run, new, i) <= run.len(),
        forall|j: int|
            i <= j < insertion_place(scores, order, run, new, i) ==> ranks_before(
                scores,
                order,
                #[trigger] run[j] as int,
                new,
            ),
        insertion_place(scores, order, run, new, i) < run.len() ==> !ranks_before(
            scores,
            order,
            run[insertion_place(scores, order, run, new, i)] as int,
            new,
        ),
    decreases run.len() - i,
{
    if i < run.len() && ranks_before(scores, order, run[i] as int, new) {
        lemma_insertion_place(scores, order, run, new, i + 1);
    }
}

/// Every list of scores has a stable ranking.
pub proof fn lemma_ranking_exists(scores: Seq<u64>, order: ScoreOrder)
    requires
        scores.len() <= usize::MAX,
    ensures
        is_ranking(scores, order, ranking_of(scores, order)),
    decreases scores.len(),
{
    if scores.len() == 0 {
        assert(is_ranking(scores, order, Seq::<usize>::empty()));
    } else {
        let rest = scores.drop_last();
        lemma_ranking_exists(rest, order);
        let run = ranking_of(rest, order);
        let new = scores.len() - 1;
        let k = insertion_place(scores, order, run, new, 0);
        lemma_insertion_place(scores, order, run, new, 0);
        let ranking = run.take(k).push(new as usize) + run.skip(k);
        assert forall|i: int| 0 <= i < ranking.len() implies 0 <= (#[trigger] ranking[i])
            < scores.len() by {
            if i < k {
                assert(ranking[i] == run[i]);
            } else if i > k {
                assert(ranking[i] == run[i - 1]);
            }
        }
        assert forall|i: int, j: int|
            #![trigger ranking[i], ranking[j]]
            0 <= i < j < ranking.len() implies ranks_before(
            scores,
            order,
            ranking[i] as int,
            ranking[j] as int,
        ) by {
            let a = if i < k {
                i
            } else {
                i - 1
            };
            let b = if j < k {
                j
            } else {
                j - 1
            };
            if i < k {
                assert(ranking[i] == run[i]);
            } else if i > k {
                assert(ranking[i] == run[i - 1]);
            }
            if j < k {
                assert(ranking[j] == run[j]);
            } else if j > k {
                assert(ranking[j] == run[j - 1]);
            }
            if i != k && j != k {
                assert(ranks_before(rest, order, run[a] as int, run[b] as int));
            } else if j == k {
                assert(ranks_before(scores, order, run[i] as int, new));
            } else {
                // i == k: the new position comes before all from k on
                assert(run[k] < new);
                assert(!ranks_before(scores, order, run[k] as int, new));
                if b > k {
                    assert(ranks_before(rest, order, run[k] as int, run[b] as int));
                }
            }
        }
        assert(is_ranking(scores, order, ranking));
    }
}

/// Where every entry is an entry of the victim, the victim is ranked first:
/// in a population of one user every attack on it succeeds at rank 1.
pub proof fn lemma_only_candidate_is_rank_1(
    scored: Seq<(u32, u64)>,
    order: ScoreOrder,
    victim: u32,
    population_size: int,
)
    requires
        0 < scored.len() <= usize::MAX,
        forall|i: int| 0 <= i < scored.len() ==> (#[trigger] scored[i]).0 == victim,
    ensures
        classification(victim, ranked(scored, order), population_size).0,
{
    lemma_ranking_exists(scores_of(scored), order);
    let ranking = ranking_of(scores_of(scored), order);
    assert(ranking[0] < scored.len());
    assert(ranked(scored, order)[0] == scored[ranking[0] as int]);
}

/// Whether the entry at position `a` is ranked before the one at `b`.
fn precedes(scored: &Vec<(u32, u64)>, order: ScoreOrder, a: usize, b: usize) -> (r: bool)
    requires
        a < scored.len(),
        b < scored.len(),
    ensures
        r == ranks_before(scores_of(scored@), order, a as int, b as int),
{
    let x: u64 = scored[a].1;
    let y: u64 = scored[b].1;
    if x == y {
        a < b
    } else {
        match order {
            ScoreOrder::Ascending => x < y,
            ScoreOrder::Descending => x > y,
        }
    }
}

/// Merges the ranked runs of two adjacent ranges into the ranked run of
/// their union.
fn merge_runs(
    scored: &Vec<(u32, u64)>,
    order: ScoreOrder,
    left: &Vec<usize>,
    right: &Vec<usize>,
    lo: usize,
    mid: usize,
    hi: usize,
) -> (out: Vec<usize>)
    requires
        is_ranked_run(scores_of(scored@), order, left@, lo as int, mid as int),
        is_ranked_run(scores_of(scored@), order, right@, mid as int, hi as int),
    ensures
        is_ranked_run(scores_of(scored@), order, out@, lo as int, hi as int),
{
    let ghost scores = scores_of(scored@);
    let mut out: Vec<usize> = Vec::new();
    let mut i: usize = 0;
    let mut j: usize = 0;
    while i < left.len() || j < right.len()
        invariant
            scores == scores_of(scored@),
            is_ranked_run(scores, order, left@, lo as int, mid as int),
            is_ranked_run(scores, order, right@, mid as int, hi as int),
            i <= left.len(),
            j <= right.len(),
            out.len() == i + j,
            forall|k: int| 0 <= k < out.len() ==> lo <= (#[trigger] out[k]) < hi,
            forall|k: int, l: int|
                #![trigger out[k], out[l]]
                0 <= k < l < out.len() ==> ranks_before(scores, order, out[k] as int, out[l] as int),
            forall|k: int, l: int|
                #![trigger out[k], left[l]]
                0 <= k < out.len() && i <= l < left.len() ==> ranks_before(
                    scores,
                    order,
                    out[k] as int,
                    left[l] as int,
                ),
            forall|k: int, l: int|
                #![trigger out[k], right[l]]
                0 <= k < out.len() && j <= l < right.len() ==> ranks_before(
                    scores,
                    order,
                    out[k] as int,
                    right[l] as int,
                ),
        decreases left.len() - i + right.len() - j,
    {
        let take_left: bool = if i >= left.len() {
            false
        } else if j >= right.len() {
            true
        } else {
            !precedes(scored, order, right[j], left[i])
        };
        let ghost before = out@;
        if take_left {
            let next: usize = left[i];
            proof {
                assert forall|l: int| j <= l < right.len() implies ranks_before(
                    scores,
                    order,
                    next as int,
                    #[trigger] right[l] as int,
                ) by {
                    assert(left[i as int] < mid);
                    assert(right[j as int] >= mid);
                    assert(right[l] >= mid);
                    if l > j {
                        assert(ranks_before(scores, order, right[j as int] as int, right[l] as int));
                    }
                }
                assert forall|l: int| i < l < left.len() implies ranks_before(
                    scores,
                    order,
                    next as int,
                    #[trigger] left[l] as int,
                ) by {
                    assert(ranks_before(scores, order, left[i as int] as int, left[l] as int));
                }
            }
            out.push(next);
            i = i + 1;
        } else {
            let next: usize = right[j];
            proof {
                assert forall|l: int| i <= l < left.len() implies ranks_before(
                    scores,
                    order,
                    next as int,
                    #[trigger] left[l] as int,
                ) by {
                    assert(left[i as int] < mid);
                    assert(left[l] < mid);
                    assert(right[j as int] >= mid);
                    if l > i {
                        assert(ranks_before(scores, order, left[i as int] as int, left[l] as int));
                    }
                }
                assert forall|l: int| j < l < right.len() implies ranks_before(
                    scores,
                    order,
                    next as int,
                    #[trigger] right[l] as int,
                ) by {
                    assert(ranks_before(scores, order, right[j as int] as int, right[l] as int));
                }
            }
            out.push(next);
            j = j + 1;
        }
        proof {
            assert forall|k: int| 0 <= k < out.len() implies lo <= (#[trigger] out[k]) < hi by {
                if k < before.len() {
                    assert(out[k] == before[k]);
                }
            }
            assert forall|k: int, l: int|
                #![trigger out[k], out[l]]
                0 <= k < l < out.len() implies ranks_before(
                scores,
                order,
                out[k] as int,
                out[l] as int,
            ) by {
                assert(out[k] == before[k]);
                if l < before.len() {
                    assert(out[l] == before[l]);
                }
            }
        }
    }
    out
}

/// The ranked run of the positions `[lo, hi)`, by merge sort.
fn rank_run(scored: &Vec<(u32, u64)>, order: ScoreOrder, lo: usize, hi: usize) -> (run: Vec<usize>)
    requires
        lo <= hi <= scored.len(),
    ensures
        is_ranked_run(scores_of(scored@), order, run@, lo as int, hi as int),
    decreases hi - lo,
{
    if hi - lo == 0 {
        Vec::new()
    } else if hi - lo == 1 {
        let mut run: Vec<usize> = Vec::new();
        run.push(lo);
        run
    } else {
        let mid: usize = lo + (hi - lo) / 2;
        let left = rank_run(scored, order, lo, mid);
        let right = rank_run(scored, order, mid, hi);
        merge_runs(scored, order, &left, &right, lo, mid, hi)
    }
}

/// Ranks the scored entries and returns their positions, closest first.
/// Entries with equal keys stay in the order in which they were scored.
pub fn rank_positions(scored: &Vec<(u32, u64)>, order: ScoreOrder) -> (ranking: Vec<usize>)
    ensures
        is_ranking(scores_of(scored@), order, ranking@),
        ranking@ == ranking_of(scores_of(scored@), order),
{
    let ranking = rank_run(scored, order, 0, scored.len());
    proof {
        assert(is_ranking(scores_of(scored@), order, ranking@));
        lemma_ranking_unique(
            scores_of(scored@),
            order,
            ranking@,
            ranking_of(scores_of(scored@), order),
        );
    }
    ranking
}

/// Ranks the scored entries, closest first. Entries with equal keys stay in
/// the order in which they were scored.
pub fn rank(scored: &Vec<(u32, u64)>, order: ScoreOrder) -> (entries: Vec<(u32, u64)>)
    ensures
        entries@ == ranked(scored@, order),
{
    let ranking = rank_positions(scored, order);
    let mut entries: Vec<(u32, u64)> = Vec::new();
    let mut i: usize = 0;
    while i < ranking.len()
        invariant
            i <= ranking.len(),
            is_ranking(scores_of(scored@), order, ranking@),
            entries.len() == i,
            forall|k: int| 0 <= k < i ==> entries[k] == scored[ranking[k] as int],
        decreases ranking.len() - i,
    {
        entries.push(scored[ranking[i]]);
        i = i + 1;
    }
    assert(entries@ =~= ranked(scored@, order));
    entries
}

/// Tells whether `client_target` is the candidate of one of the entries.
pub fn is_target_in_top_k(client_target: &u32, tuples: &[(u32, u64)]) -> (found: bool)
    ensures
        found == appears_in_first(tuples@, *client_target, tuples@.len() as int),
{
    let mut i: usize = 0;
    while i < tuples.len()
        invariant
            i <= tuples.len(),
            !appears_in_first(tuples@, *client_target, i as int),
        decreases tuples.len() - i,
    {
        if tuples[i].0 == *client_target {
            return true;
        }
        i = i + 1;
    }
    false
}

/// Tells whether `target` is the candidate of one of the first `k` entries;
/// with fewer than `k` entries, of any entry.
pub fn is_target_in_first(target: u32, entries: &Vec<(u32, u64)>, k: usize) -> (found: bool)
    ensures
        found == appears_in_first(entries@, target, k as int),
{
    let mut i: usize = 0;
    while i < k && i < entries.len()
        invariant
            !appears_in_first(entries@, target, i as int),
        decreases entries.len() - i,
    {
        if entries[i].0 == target {
            return true;
        }
        i = i + 1;
    }
    false
}

/// Classifies an attack on `victim` from the ranked entries of all
/// candidates: whether the victim is ranked first, is among the first ten
/// entries, and is among the first `population_size / 10` entries.
pub fn classify(victim: u32, entries: &Vec<(u32, u64)>, population_size: usize) -> (outcome: (
    bool,
    bool,
    bool,
))
    ensures
        outcome == classification(victim, entries@, population_size as int),
{
    let is_top_1: bool = entries.len() > 0 && entries[0].0 == victim;
    let is_top_10: bool = is_target_in_first(victim, entries, 10);
    let is_top_10_percent: bool = is_target_in_first(victim, entries, population_size / 10);
    (is_top_1, is_top_10, is_top_10_percent)
}

/// Ranks the scored entries of one attack and classifies it.
pub fn rank_and_classify(
    victim: u32,
    scored: &Vec<(u32, u64)>,
    order: ScoreOrder,
    population_size: usize,
) -> (outcome: (bool, bool, bool))
    ensures
        outcome == classification(victim, ranked(scored@, order), population_size as int),
{
    let entries = rank(scored, order);
    classify(victim, &entries, population_size)
}

} // verus!
