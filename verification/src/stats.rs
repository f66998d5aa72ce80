//! Two small statistics over a vector of integers: a middle value and the
//! most frequent value.

use std::collections::HashMap;
use vstd::prelude::*;
use vstd::relations::{sorted_by, total_ordering};
use vstd::seq_lib::lemma_sorted_unique;

verus! {

/// The order in which the values are sorted.
pub open spec fn at_most() -> spec_fn(i32, i32) -> bool {
    |a: i32, b: i32| a <= b
}

/// `s` with its values in ascending order.
pub open spec fn ascending(s: Seq<i32>) -> Seq<i32> {
    s.sort_by(at_most())
}

/// The index that is read from the sorted values: half the length, and one
/// more where that half is odd.
pub open spec fn middle_index(len: nat) -> int {
    let half = len as int / 2;
    if half % 2 == 1 {
        half + 1
    } else {
        half
    }
}

/// The order `at_most` is a total one.
pub proof fn lemma_at_most_total()
    ensures
        total_ordering(at_most()),
{
    let r = at_most();
    assert forall|x: i32, y: i32| #[trigger] r(x, y) && #[trigger] r(y, x) implies x == y by {}
    assert forall|x: i32, y: i32, z: i32| #[trigger] r(x, y) && #[trigger] r(y, z) implies r(
        x,
        z,
    ) by {}
    assert forall|x: i32, y: i32| #[trigger] r(x, y) || #[trigger] r(y, x) by {}
    assert forall|x: i32| #[trigger] r(x, x) by {}
}

/// There is one way only to put given values in ascending order: a sequence
/// that never goes down and holds the values of `s`, each as often as `s`
/// does, is `ascending(s)`.
pub proof fn lemma_ascending_unique(s: Seq<i32>, t: Seq<i32>)
    requires
        t.to_multiset() == s.to_multiset(),
        forall|a: int, b: int| 0 <= a <= b < t.len() ==> t[a] <= t[b],
    ensures
        t == ascending(s),
{
    lemma_at_most_total();
    s.lemma_sort_by_ensures(at_most());
    assert(sorted_by(t, at_most()));
    lemma_sorted_unique(t, ascending(s), at_most());
}

/// `<[i32]>::sort` of std, called on the whole vector. std documents that it
/// sorts the slice in ascending order and keeps equal elements; the contract
/// says that afterwards the values never go down, and that each value occurs
/// as often as before.
#[verifier::external_body]
fn sort_ascending(v: &mut Vec<i32>)
    ensures
        final(v)@.to_multiset() == old(v)@.to_multiset(),
        forall|a: int, b: int| 0 <= a <= b < final(v)@.len() ==> final(v)@[a] <= final(v)@[b],
{
    v.sort();
}

/// Sorts `v` in place and returns the value at `middle_index` of its length.
///
/// With 0 or 2 values that index lies outside the vector, so those lengths
/// are left out.
pub fn exercise_median_of_vector(v: &mut Vec<i32>) -> (middle: i32)
    requires
        old(v)@.len() != 0,
        old(v)@.len() != 2,
    ensures
        final(v)@ == ascending(old(v)@),
        final(v)@.len() == old(v)@.len(),
        final(v)@.to_multiset() == old(v)@.to_multiset(),
        forall|a: int, b: int| 0 <= a <= b < final(v)@.len() ==> final(v)@[a] <= final(v)@[b],
        middle == final(v)@[middle_index(old(v)@.len())],
{
    sort_ascending(v);
    proof {
        lemma_ascending_unique(old(v)@, v@);
        old(v)@.to_multiset_ensures();
        v@.to_multiset_ensures();
    }
    let half: usize = v.len() / 2;
    if half % 2 == 1 {
        v[half + 1]
    } else {
        v[half]
    }
}

/// How often `x` occurs in `s`.
pub open spec fn occurrences(s: Seq<i32>, x: i32) -> nat
    decreases s.len(),
{
    if s.len() == 0 {
        0
    } else {
        occurrences(s.drop_last(), x) + if s.last() == x {
            1nat
        } else {
            0nat
        }
    }
}

/// How often the value at index `i` has occurred in `s` up to and including
/// that index.
pub open spec fn running_count(s: Seq<i32>, i: int) -> nat {
    occurrences(s.take(i + 1), s[i])
}

/// Index `i` is where a value of `s` first occurs as often as any value of `s`
/// ever does: no running count exceeds the one at `i`, and every earlier one
/// is below it.
pub open spec fn first_to_lead(s: Seq<i32>, i: int) -> bool {
    &&& 0 <= i < s.len()
    &&& forall|j: int| 0 <= j < s.len() ==> running_count(s, j) <= running_count(s, i)
    &&& forall|j: int| 0 <= j < i ==> running_count(s, j) < running_count(s, i)
}

/// `m` is the mode of `s`: the value that is the first to reach the highest
/// number of occurrences, and 0 for an empty sequence.
pub open spec fn is_mode(s: Seq<i32>, m: i32) -> bool {
    if s.len() == 0 {
        m == 0
    } else {
        exists|i: int| first_to_lead(s, i) && s[i] == m
    }
}

/// A value occurs in a sequence at most as often as the sequence is long.
pub proof fn lemma_occurrences_bound(s: Seq<i32>, x: i32)
    ensures
        occurrences(s, x) <= s.len(),
    decreases s.len(),
{
    if s.len() > 0 {
        lemma_occurrences_bound(s.drop_last(), x);
    }
}

/// A sequence has one mode only.
pub proof fn lemma_mode_unique(s: Seq<i32>, m: i32, n: i32)
    requires
        is_mode(s, m),
        is_mode(s, n),
    ensures
        m == n,
{
    if s.len() > 0 {
        let i = choose|i: int| first_to_lead(s, i) && s[i] == m;
        let j = choose|j: int| first_to_lead(s, j) && s[j] == n;
        if i < j {
            assert(running_count(s, i) < running_count(s, j));
        } else if j < i {
            assert(running_count(s, j) < running_count(s, i));
        }
    }
}

/// The value that leads the count so far, with its count.
struct Highest {
    key: i32,
    count: i32,
}

/// Returns the mode of `vector`: it counts each value as it comes and keeps
/// the first value whose count exceeds every count seen before.
///
/// The counts are 32-bit, so the vector holds at most `i32::MAX` values.
pub fn exercise_mode_of_vector(vector: &Vec<i32>) -> (mode_value: i32)
    requires
        vector@.len() <= i32::MAX,
    ensures
        is_mode(vector@, mode_value),
{
    let mut mode: HashMap<i32, i32> = HashMap::new();
    let mut highest = Highest { key: 0, count: 0 };
    let ghost mut lead: int = 0;
    let mut k: usize = 0;
    while k < vector.len()
        invariant
            k <= vector@.len() <= i32::MAX,
            forall|x: i32|
                mode@.contains_key(x) <==> occurrences(vector@.take(k as int), x) > 0,
            forall|x: i32|
                mode@.contains_key(x) ==> #[trigger] mode@[x] == occurrences(
                    vector@.take(k as int),
                    x,
                ),
            k == 0 ==> highest.key == 0 && highest.count == 0,
            k > 0 ==> 0 <= lead < k && vector@[lead] == highest.key && running_count(
                vector@,
                lead,
            ) == highest.count,
            forall|j: int| 0 <= j < k ==> running_count(vector@, j) <= highest.count,
            forall|j: int| 0 <= j < lead ==> running_count(vector@, j) < highest.count,
        decreases vector@.len() - k,
    {
        let key: i32 = vector[k];
        proof {
            assert(vector@.take(k + 1).drop_last() =~= vector@.take(k as int));
            lemma_occurrences_bound(vector@.take(k as int), key);
            assert forall|x: i32| occurrences(vector@.take(k + 1), x) == occurrences(
                vector@.take(k as int),
                x,
            ) + if x == key {
                1nat
            } else {
                0nat
            } by {}
        }
        let count = mode.entry(key).or_insert(0);
        *count += 1;
        if *count > highest.count {
            highest.count = *count;
            highest.key = key;
            proof {
                lead = k as int;
            }
        }
        k = k + 1;
    }
    proof {
        assert(vector@.take(k as int) =~= vector@);
        if vector@.len() > 0 {
            assert(first_to_lead(vector@, lead));
        }
    }
    highest.key
}

} // verus!
