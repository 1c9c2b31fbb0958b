//! Constructors and sums of count vectors.

use vstd::prelude::*;

verus! {

/// Creates a vector of `size` unsigned zeros.
pub fn zeros_u32(size: usize) -> (v: Vec<u32>)
    ensures
        v@ == Seq::new(size as nat, |i: int| 0u32),
{
    crate::maths::zeros_u32(size)
}

/// Creates a vector of `size` zeros for sums of counts.
pub fn zeros_u64(size: usize) -> (v: Vec<u64>)
    ensures
        v@ == Seq::new(size as nat, |i: int| 0u64),
{
    let mut v: Vec<u64> = Vec::new();
    while v.len() < size
        invariant
            v.len() <= size,
            v@ == Seq::new(v.len() as nat, |i: int| 0u64),
        decreases size - v.len(),
    {
        v.push(0);
        assert(v@ =~= Seq::new(v.len() as nat, |i: int| 0u64));
    }
    v
}

/// The position-wise sum of two vectors of one length.
pub open spec fn added(sums: Seq<nat>, counts: Seq<nat>) -> Seq<nat> {
    Seq::new(sums.len(), |i: int| sums[i] + counts[i])
}

/// The position-wise sum of the rows, each of length `width`.
pub open spec fn summed(rows: Seq<Seq<nat>>, width: nat) -> Seq<nat>
    decreases rows.len(),
{
    if rows.len() == 0 {
        Seq::new(width, |i: int| 0nat)
    } else {
        added(summed(rows.drop_last(), width), rows.last())
    }
}

/// The sums of a vector as natural numbers.
pub open spec fn as_sums(v: Seq<u64>) -> Seq<nat> {
    v.map_values(|c: u64| c as nat)
}

/// Adds the counts of `ref_vector` to the sums of `vector`, position by
/// position.
pub fn add(vector: Vec<u64>, ref_vector: &Vec<u32>) -> (sums: Vec<u64>)
    requires
        vector.len() == ref_vector.len(),
        forall|i: int| 0 <= i < vector.len() ==> (#[trigger] vector@[i]) + ref_vector@[i] <= u64::MAX,
    ensures
        as_sums(sums@) == added(as_sums(vector@), ref_vector@.map_values(|c: u32| c as nat)),
{
    let mut sums = vector;
    let ghost start = sums@;
    let mut i: usize = 0;
    while i < sums.len()
        invariant
            i <= sums.len(),
            sums.len() == ref_vector.len(),
            sums.len() == start.len(),
            forall|k: int| 0 <= k < i ==> (#[trigger] sums@[k]) == start[k] + ref_vector@[k],
            forall|k: int| i <= k < sums.len() ==> (#[trigger] sums@[k]) == start[k],
            forall|k: int| 0 <= k < start.len() ==> (#[trigger] start[k]) + ref_vector@[k] <= u64::MAX,
        decreases sums.len() - i,
    {
        let total: u64 = sums[i] + ref_vector[i] as u64;
        sums.set(i, total);
        i = i + 1;
    }
    assert(as_sums(sums@) =~= added(as_sums(start), ref_vector@.map_values(|c: u32| c as nat)));
    sums
}

/// Every row has the length `width` and holds only 32-bit counts.
pub open spec fn rows_of_counts(rows: Seq<Seq<nat>>, width: nat) -> bool {
    forall|j: int|
        0 <= j < rows.len() ==> (#[trigger] rows[j]).len() == width && forall|i: int|
            0 <= i < width ==> (#[trigger] rows[j][i]) <= u32::MAX
}

/// The sum of the rows is as long as a row, and no sum is more than the
/// greatest count times the number of rows.
pub proof fn lemma_summed_bound(rows: Seq<Seq<nat>>, width: nat)
    requires
        rows_of_counts(rows, width),
    ensures
        summed(rows, width).len() == width,
        forall|i: int| 0 <= i < width ==> (#[trigger] summed(rows, width)[i]) <= rows.len() * u32::MAX,
    decreases rows.len(),
{
    if rows.len() > 0 {
        let rest = rows.drop_last();
        assert forall|j: int| 0 <= j < rest.len() implies (#[trigger] rest[j]).len() == width
            && forall|i: int| 0 <= i < width ==> (#[trigger] rest[j][i]) <= u32::MAX by {
            assert(rest[j] == rows[j]);
        }
        lemma_summed_bound(rest, width);
        assert forall|i: int| 0 <= i < width implies (#[trigger] summed(rows, width)[i])
            <= rows.len() * u32::MAX by {
            assert(summed(rest, width)[i] <= rest.len() * u32::MAX);
            assert(rows.last()[i] <= u32::MAX);
            assert(rest.len() * u32::MAX + u32::MAX == rows.len() * u32::MAX) by (nonlinear_arith)
                requires
                    rest.len() + 1 == rows.len(),
            ;
        }
    }
}

/// Adds one more row of counts to the sums of the rows before it.
pub(crate) fn add_row(sums: Vec<u64>, row: &Vec<u32>, Ghost(rows): Ghost<Seq<Seq<nat>>>) -> (total: Vec<
    u64,
>)
    requires
        rows_of_counts(rows, row@.len()),
        rows.len() < u32::MAX,
        as_sums(sums@) == summed(rows, row@.len()),
    ensures
        as_sums(total@) == summed(rows.push(row@.map_values(|c: u32| c as nat)), row@.len()),
        rows_of_counts(rows.push(row@.map_values(|c: u32| c as nat)), row@.len()),
{
    let ghost counts = row@.map_values(|c: u32| c as nat);
    proof {
        lemma_summed_bound(rows, row@.len());
        assert forall|i: int| 0 <= i < sums.len() implies (#[trigger] sums@[i]) + row@[i]
            <= u64::MAX by {
            assert(as_sums(sums@)[i] == sums@[i]);
            assert(summed(rows, row@.len())[i] <= rows.len() * u32::MAX);
            assert(rows.len() * u32::MAX + u32::MAX <= u64::MAX) by (nonlinear_arith)
                requires
                    rows.len() < u32::MAX,
            ;
        }
        assert(rows.push(counts).drop_last() =~= rows);
        assert forall|j: int| 0 <= j < rows.push(counts).len() implies (#[trigger] rows.push(
            counts,
        )[j]).len() == row@.len() && forall|i: int|
            0 <= i < row@.len() ==> (#[trigger] rows.push(counts)[j][i]) <= u32::MAX by {
            if j < rows.len() {
                assert(rows.push(counts)[j] == rows[j]);
            }
        }
    }
    self::add(sums, row)
}

} // verus!
