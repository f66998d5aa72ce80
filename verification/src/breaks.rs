//! Finding the point where a sorted run of integers changes value, and
//! adding such a run up.

use vstd::prelude::*;

verus! {

/// The values of `s` at the indices `start..end` never go down.
pub open spec fn non_decreasing(s: Seq<i16>, start: int, end: int) -> bool {
    forall|a: int, b: int| start <= a <= b < end ==> s[a] <= s[b]
}

/// Every value of `s` at the indices `start..end` equals the one at `start`.
pub open spec fn uniform(s: Seq<i16>, start: int, end: int) -> bool {
    forall|k: int| start <= k < end ==> s[k] == s[start]
}

/// `i` is the boundary index of `s` over `start..end`: the first index of the
/// range whose value differs from the one before it, or `start` when the
/// whole range holds one value.
pub open spec fn is_boundary(s: Seq<i16>, start: int, end: int, i: int) -> bool {
    &&& start <= i < end
    &&& uniform(s, start, i)
    &&& if i == start {
        uniform(s, start, end)
    } else {
        s[i - 1] != s[i]
    }
}

/// Returns the boundary index of `xs` over `start..end` by binary search:
/// the smallest index in the range whose value differs from its
/// predecessor's, or `start` when no value in the range differs.
///
/// The caller guarantees that the range is not empty, lies within `xs` and is
/// sorted; sortedness is relied on and never checked.
pub fn find_break(xs: &[i16], start: usize, end: usize) -> (index: usize)
    requires
        start < end <= xs@.len(),
        non_decreasing(xs@, start as int, end as int),
    ensures
        is_boundary(xs@, start as int, end as int, index as int),
        start <= index < end,
        index == start || xs@[index - 1] != xs@[index as int],
        forall|j: int| start <= j < index ==> xs@[j] == xs@[start as int],
        end == start + 1 ==> index == start,
        uniform(xs@, start as int, end as int) <==> index == start,
{
    let mut i: usize = start;
    let mut j: usize = end;
    while i < j
        invariant
            start <= i <= j <= end <= xs@.len(),
            start < end,
            uniform(xs@, start as int, i as int),
            j < end ==> xs@[j as int] != xs@[start as int],
            non_decreasing(xs@, start as int, end as int),
        decreases j - i,
    {
        let mid: usize = i + (j - i) / 2;
        if xs[start] == xs[mid] {
            i = mid + 1;
        } else {
            j = mid;
        }
    }
    if i == end {
        start
    } else {
        i
    }
}

/// A range has one boundary index only: whatever meets the contract of
/// `find_break` for given arguments is the same index, so that calling it
/// again on the same arguments gives the same result. This holds of every
/// sequence, sorted or not.
pub proof fn lemma_boundary_unique(s: Seq<i16>, start: int, end: int, i: int, j: int)
    requires
        is_boundary(s, start, end, i),
        is_boundary(s, start, end, j),
    ensures
        i == j,
{
    if i < j {
        assert(s[i] == s[start]);
        if i > start {
            assert(s[i - 1] == s[start]);
        } else {
            assert(s[j - 1] == s[start] && s[j] == s[start]);
        }
    } else if j < i {
        assert(s[j] == s[start]);
        if j > start {
            assert(s[j - 1] == s[start]);
        } else {
            assert(s[i - 1] == s[start] && s[i] == s[start]);
        }
    }
}

/// The values on the two sides of the boundary `index`: the one just before
/// it and the one at it. There is no such pair where `index` is 0.
pub fn values_at_break(xs: &[i16], index: usize) -> (sides: Option<(i16, i16)>)
    requires
        index < xs@.len(),
    ensures
        index == 0 ==> sides is None,
        index > 0 ==> sides == Some((xs@[index - 1], xs@[index as int])),
{
    if index == 0 {
        None
    } else {
        Some((xs[index - 1], xs[index]))
    }
}

/// The sum of the values of `s`, as a mathematical integer.
pub open spec fn sum_of(s: Seq<i16>) -> int
    decreases s.len(),
{
    if s.len() == 0 {
        0
    } else {
        sum_of(s.drop_last()) + s.last()
    }
}

/// A sum of 16-bit values lies within the length times the least and the
/// greatest 16-bit value.
pub proof fn lemma_sum_bounds(s: Seq<i16>)
    ensures
        -32768 * s.len() <= sum_of(s) <= 32767 * s.len(),
    decreases s.len(),
{
    if s.len() > 0 {
        lemma_sum_bounds(s.drop_last());
    }
}

/// Adds up the values of `xs`. The sum has to fit the result type; a slice of
/// up to 2^48 values always does (`lemma_sum_bounds`).
pub fn sum_int16(xs: &[i16]) -> (total: i64)
    requires
        i64::MIN <= sum_of(xs@) <= i64::MAX,
    ensures
        total == sum_of(xs@),
{
    let mut acc: i128 = 0;
    let mut i: usize = 0;
    while i < xs.len()
        invariant
            i <= xs@.len(),
            acc == sum_of(xs@.take(i as int)),
        decreases xs@.len() - i,
    {
        proof {
            lemma_sum_bounds(xs@.take(i as int));
            assert(xs@.take(i + 1).drop_last() =~= xs@.take(i as int));
        }
        acc = acc + xs[i] as i128;
        i = i + 1;
    }
    proof {
        assert(xs@.take(i as int) =~= xs@);
    }
    acc as i64
}

} // verus!
