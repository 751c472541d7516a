use vstd::prelude::*;

verus! {

/// Range `i` comes before range `j` when ranges are ordered by start,
/// earlier position first among equal starts.
pub open spec fn placed_before(starts: Seq<u32>, i: int, j: int) -> bool {
    starts[i] < starts[j] || (starts[i] == starts[j] && i < j)
}

/// Range `i`, placed before range `j`, reaches past the start of `j`.
pub open spec fn overlapping_pair(starts: Seq<u32>, ends: Seq<u32>, i: int, j: int) -> bool {
    &&& 0 <= i < starts.len()
    &&& 0 <= j < starts.len()
    &&& i != j
    &&& placed_before(starts, i, j)
    &&& ends[i] > starts[j]
}

/// Some two of the ranges `[starts[k], ends[k])` overlap.
pub open spec fn has_overlap(starts: Seq<u32>, ends: Seq<u32>) -> bool {
    exists|i: int, j: int| overlapping_pair(starts, ends, i, j)
}

/// Finds two overlapping ranges, the first of them placed before the second.
pub fn find_overlap(starts: &[u32], ends: &[u32]) -> (r: Option<(usize, usize)>)
    requires
        starts@.len() == ends@.len(),
    ensures
        match r {
            Some((i, j)) => overlapping_pair(starts@, ends@, i as int, j as int),
            None => !has_overlap(starts@, ends@),
        },
{
    let n = starts.len();
    let mut i: usize = 0;
    while i < n
        invariant
            n == starts@.len(),
            n == ends@.len(),
            i <= n,
            forall|a: int, b: int| 0 <= a < i && overlapping_pair(starts@, ends@, a, b) ==> false,
        decreases n - i,
    {
        let mut j: usize = 0;
        while j < n
            invariant
                n == starts@.len(),
                n == ends@.len(),
                i < n,
                j <= n,
                forall|a: int, b: int| 0 <= a < i && overlapping_pair(starts@, ends@, a, b) ==> false,
                forall|b: int| 0 <= b < j && overlapping_pair(starts@, ends@, i as int, b) ==> false,
            decreases n - j,
        {
            if i != j && (starts[i] < starts[j] || (starts[i] == starts[j] && i < j)) && ends[i]
                > starts[j] {
                return Some((i, j));
            }
            j = j + 1;
        }
        i = i + 1;
    }
    None
}

/// Ranges that do not overlap are pairwise disjoint.
pub proof fn lemma_no_overlap_disjoint(starts: Seq<u32>, ends: Seq<u32>, i: int, j: int)
    requires
        starts.len() == ends.len(),
        !has_overlap(starts, ends),
        0 <= i < starts.len(),
        0 <= j < starts.len(),
        i != j,
    ensures
        ends[i] <= starts[j] || ends[j] <= starts[i],
{
    if placed_before(starts, i, j) {
        if ends[i] > starts[j] {
            assert(overlapping_pair(starts, ends, i, j));
        }
    } else {
        assert(placed_before(starts, j, i));
        if ends[j] > starts[i] {
            assert(overlapping_pair(starts, ends, j, i));
        }
    }
}

} // verus!
