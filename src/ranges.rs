//! Changed-line ranges of one file and the containment query over them.
use vstd::prelude::*;

verus! {

/// A span of lines in the new revision of a file, `(start, end)`, where both
/// bounds count as inside.
pub type HunkRange = (u32, u32);

/// Some range of `ranges` holds `n`, both bounds included.
pub open spec fn covers(ranges: Seq<HunkRange>, n: int) -> bool {
    exists|i: int| 0 <= i < ranges.len() && (#[trigger] ranges[i]).0 <= n <= ranges[i].1
}

/// Starts and ends both never decrease along the sequence: what the binary
/// search needs to be exact.
pub open spec fn ranges_sorted(ranges: Seq<HunkRange>) -> bool {
    forall|i: int, j: int|
        0 <= i < j < ranges.len() ==> ranges[i].0 <= ranges[j].0 && ranges[i].1 <= ranges[j].1
}

/// Every range is well formed and lies wholly before the next one.
pub open spec fn ranges_disjoint(ranges: Seq<HunkRange>) -> bool {
    &&& forall|i: int| 0 <= i < ranges.len() ==> ranges[i].0 <= ranges[i].1
    &&& forall|i: int, j: int| 0 <= i < j < ranges.len() ==> ranges[i].1 < ranges[j].0
}

/// A sorted list of non-overlapping ranges is sorted in the sense the search
/// asks for, so the search answers exactly on it.
pub proof fn disjoint_ranges_are_sorted(ranges: Seq<HunkRange>)
    requires
        ranges_disjoint(ranges),
    ensures
        ranges_sorted(ranges),
{
    assert forall|i: int, j: int| 0 <= i < j < ranges.len() implies ranges[i].0 <= ranges[j].0
        && ranges[i].1 <= ranges[j].1 by {
        assert(ranges[i].0 <= ranges[i].1);
        assert(ranges[j].0 <= ranges[j].1);
    }
}

/// No number lies in an empty list of ranges.
pub proof fn empty_ranges_cover_nothing(n: int)
    ensures
        !covers(Seq::<HunkRange>::empty(), n),
{
}

/// Binary search for a range holding `number`. A `true` answer always names
/// a real range; on sorted ranges the answer is exact.
pub fn is_number_in_sorted_ranges(ranges: &[HunkRange], number: u32) -> (r: bool)
    ensures
        r ==> covers(ranges@, number as int),
        ranges_sorted(ranges@) ==> (r == covers(ranges@, number as int)),
{
    let mut low: usize = 0;
    let mut high: usize = ranges.len();
    while low < high
        invariant
            low <= high <= ranges@.len(),
            ranges_sorted(ranges@) ==> forall|i: int| 0 <= i < low ==> ranges@[i].1 < number,
            ranges_sorted(ranges@) ==> forall|i: int|
                high <= i < ranges@.len() ==> number < ranges@[i].0,
        decreases high - low,
    {
        let mid: usize = low + (high - low) / 2;
        let (start, end) = ranges[mid];
        if number >= start && number <= end {
            return true;
        } else if number >= start {
            low = mid + 1;
        } else {
            high = mid;
        }
    }
    proof {
        if ranges_sorted(ranges@) {
            assert forall|i: int| 0 <= i < ranges@.len() implies !((#[trigger] ranges@[i]).0 <= number
                <= ranges@[i].1) by {
                if i < low {
                } else {
                }
            }
        }
    }
    false
}

/// Linear scan for a range holding `number`, exact on any list.
pub fn is_number_in_ranges(ranges: &[HunkRange], number: u32) -> (r: bool)
    ensures
        r == covers(ranges@, number as int),
{
    let mut i: usize = 0;
    while i < ranges.len()
        invariant
            i <= ranges@.len(),
            forall|j: int| 0 <= j < i ==> !((#[trigger] ranges@[j]).0 <= number <= ranges@[j].1),
        decreases ranges@.len() - i,
    {
        let (start, end) = ranges[i];
        if start <= number && number <= end {
            return true;
        }
        i = i + 1;
    }
    false
}

/// Whether the ranges are sorted in the sense the binary search asks for.
pub fn ranges_are_sorted(ranges: &[HunkRange]) -> (r: bool)
    ensures
        r == ranges_sorted(ranges@),
{
    let mut i: usize = 1;
    if ranges.len() == 0 {
        return true;
    }
    while i < ranges.len()
        invariant
            1 <= i <= ranges@.len(),
            ranges_sorted(ranges@.take(i as int)),
        decreases ranges@.len() - i,
    {
        let (s0, e0) = ranges[i - 1];
        let (s1, e1) = ranges[i];
        if s0 > s1 || e0 > e1 {
            assert(!ranges_sorted(ranges@)) by {
                assert(ranges@[i - 1].0 <= ranges@[i as int].0 ==> ranges@[i - 1].1 > ranges@[i as int].1);
            }
            return false;
        }
        proof {
            let t = ranges@.take(i + 1);
            assert forall|a: int, b: int| 0 <= a < b < t.len() implies t[a].0 <= t[b].0 && t[a].1 <= t[b].1 by {
                if b < i {
                    assert(ranges@.take(i as int)[a] == t[a]);
                    assert(ranges@.take(i as int)[b] == t[b]);
                } else if a < i - 1 {
                    assert(ranges@.take(i as int)[a] == t[a]);
                    assert(ranges@.take(i as int)[i - 1] == t[i - 1]);
                }
            }
        }
        i = i + 1;
    }
    assert(ranges@.take(i as int) =~= ranges@);
    true
}

} // verus!
