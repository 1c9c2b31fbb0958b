//! Vocabularies: insertion-ordered sets of distinct string values.
//!
//! A vocabulary gives each of its values an index, the place at which the
//! value was first inserted. Vector positions are vocabulary indices.

use indexmap::IndexSet;
use vstd::prelude::*;

verus! {

#[verifier::external_type_specification]
#[verifier::external_body]
#[verifier::reject_recursive_types(T)]
#[verifier::reject_recursive_types(S)]
pub struct ExIndexSet<T, S>(IndexSet<T, S>);

/// The values of a set, in the order of their indices.
pub uninterp spec fn set_items(set: IndexSet<String>) -> Seq<Seq<char>>;

/// The distinct values of a sequence, in the order of their first
/// occurrence.
pub open spec fn distinct_in_order(values: Seq<Seq<char>>) -> Seq<Seq<char>>
    decreases values.len(),
{
    if values.len() == 0 {
        Seq::empty()
    } else {
        let before = distinct_in_order(values.drop_last());
        if before.contains(values.last()) {
            before
        } else {
            before.push(values.last())
        }
    }
}

/// Calls `indexmap::IndexSet::new`. Trusted: the new set holds nothing.
#[verifier::external_body]
pub(crate) fn set_new() -> (set: IndexSet<String>)
    ensures
        set_items(set) == Seq::<Seq<char>>::empty(),
{
    IndexSet::new()
}

/// Calls `indexmap::IndexSet::len`. Trusted: it is the number of values.
#[verifier::external_body]
pub(crate) fn set_len(set: &IndexSet<String>) -> (n: usize)
    ensures
        n == set_items(*set).len(),
{
    set.len()
}

/// Calls `indexmap::IndexSet::insert`. Trusted: a value that the set holds
/// already leaves it unchanged and gives `false`; any other is appended
/// behind the values that are there and gives `true`.
#[verifier::external_body]
pub(crate) fn set_insert(set: &mut IndexSet<String>, value: String) -> (added: bool)
    ensures
        added == !set_items(*old(set)).contains(value@),
        set_items(*final(set)) == if set_items(*old(set)).contains(value@) {
            set_items(*old(set))
        } else {
            set_items(*old(set)).push(value@)
        },
{
    set.insert(value)
}

/// Calls `indexmap::IndexSet::get_index_of`. Trusted: a value of the set is
/// found at its index, which is the only place where the set holds it; any
/// other value is not found.
#[verifier::external_body]
pub(crate) fn set_index_of(set: &IndexSet<String>, value: &str) -> (found: Option<usize>)
    ensures
        match found {
            Some(i) => {
                &&& i < set_items(*set).len()
                &&& set_items(*set)[i as int] == value@
                &&& forall|j: int|
                    0 <= j < set_items(*set).len() && set_items(*set)[j] == value@ ==> j == i
            },
            None => !set_items(*set).contains(value@),
        },
{
    set.get_index_of(value)
}

/// Inserting the values of a sequence one by one gives its distinct values.
pub proof fn lemma_distinct_in_order_push(values: Seq<Seq<char>>, value: Seq<char>)
    ensures
        distinct_in_order(values.push(value)) == if distinct_in_order(values).contains(value) {
            distinct_in_order(values)
        } else {
            distinct_in_order(values).push(value)
        },
{
    assert(values.push(value).drop_last() =~= values);
}

/// A value is among the distinct values of a sequence exactly where it is
/// among its values.
pub proof fn lemma_distinct_in_order_contains(values: Seq<Seq<char>>, v: Seq<char>)
    ensures
        distinct_in_order(values).contains(v) <==> values.contains(v),
    decreases values.len(),
{
    if values.len() > 0 {
        let rest = values.drop_last();
        let before = distinct_in_order(rest);
        let all = distinct_in_order(values);
        lemma_distinct_in_order_contains(rest, v);
        if all.contains(v) {
            let i = choose|i: int| 0 <= i < all.len() && all[i] == v;
            if i < before.len() {
                assert(before[i] == v);
                assert(before.contains(v));
                assert(rest.contains(v));
                let j = choose|j: int| 0 <= j < rest.len() && rest[j] == v;
                assert(values[j] == v);
            } else {
                assert(values[values.len() - 1] == v);
            }
        }
        if values.contains(v) {
            let j = choose|j: int| 0 <= j < values.len() && values[j] == v;
            if j < rest.len() {
                assert(rest[j] == v);
                assert(rest.contains(v));
                assert(before.contains(v));
                let i = choose|i: int| 0 <= i < before.len() && before[i] == v;
                assert(all[i] == v);
            } else if before.contains(v) {
            } else {
                assert(all[all.len() - 1] == v);
            }
        }
    }
}

/// The distinct values of a sequence hold no value twice.
pub proof fn lemma_distinct_in_order(values: Seq<Seq<char>>)
    ensures
        distinct_in_order(values).no_duplicates(),
    decreases values.len(),
{
    if values.len() > 0 {
        lemma_distinct_in_order(values.drop_last());
    }
}

/// The distinct values of a sequence without repetitions are the sequence.
pub proof fn lemma_distinct_in_order_of_distinct(values: Seq<Seq<char>>)
    requires
        values.no_duplicates(),
    ensures
        distinct_in_order(values) == values,
    decreases values.len(),
{
    if values.len() > 0 {
        let rest = values.drop_last();
        lemma_distinct_in_order_of_distinct(rest);
        if rest.contains(values.last()) {
            let j = choose|j: int| 0 <= j < rest.len() && rest[j] == values.last();
            assert(values[j] == values[values.len() - 1]);
        }
        assert(rest.push(values.last()) =~= values);
    }
}

/// A sequence has no more distinct values than values.
pub proof fn lemma_distinct_in_order_len(values: Seq<Seq<char>>)
    ensures
        distinct_in_order(values).len() <= values.len(),
    decreases values.len(),
{
    if values.len() > 0 {
        lemma_distinct_in_order_len(values.drop_last());
    }
}

/// Inserts a value into a vocabulary and returns its code: the index that
/// the value has in the vocabulary from then on.
pub fn code_value(set: &mut IndexSet<String>, value: &String) -> (code: u32)
    requires
        set_items(*old(set)).len() < u32::MAX,
    ensures
        set_items(*final(set)) == if set_items(*old(set)).contains(value@) {
            set_items(*old(set))
        } else {
            set_items(*old(set)).push(value@)
        },
        code < set_items(*final(set)).len(),
        set_items(*final(set))[code as int] == value@,
{
    let ghost before = set_items(*set);
    set_insert(set, value.clone());
    proof {
        if before.contains(value@) {
        } else {
            assert(before.push(value@)[before.len() as int] == value@);
        }
        assert(set_items(*set).contains(value@));
    }
    match set_index_of(set, value.as_str()) {
        Some(index) => index as u32,
        None => {
            assert(false);
            0
        },
    }
}

/// Builds the vocabulary of a list of values: its distinct values in the
/// order of their first occurrence.
pub fn vocabulary_of(values: &Vec<String>) -> (set: IndexSet<String>)
    ensures
        set_items(set) == distinct_in_order(values@.map_values(|s: String| s@)),
{
    let ghost views = values@.map_values(|s: String| s@);
    let mut set = set_new();
    let mut i: usize = 0;
    while i < values.len()
        invariant
            i <= values.len(),
            views == values@.map_values(|s: String| s@),
            set_items(set) == distinct_in_order(views.take(i as int)),
        decreases values.len() - i,
    {
        proof {
            lemma_distinct_in_order_push(views.take(i as int), views[i as int]);
            assert(views.take(i as int).push(views[i as int]) =~= views.take(i + 1));
        }
        set_insert(&mut set, values[i].clone());
        i = i + 1;
    }
    assert(views.take(values.len() as int) =~= views);
    set
}

} // verus!
