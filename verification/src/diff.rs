//! Difference of two sorted arrays of unique elements: which elements left
//! and which arrived between two snapshots, in one merge pass.
use vstd::prelude::*;

verus! {

/// Strictly increasing: sorted with no duplicates.
pub open spec fn strictly_sorted(s: Seq<u64>) -> bool {
    forall|i: int, j: int| 0 <= i < j < s.len() ==> s[i] < s[j]
}

/// The elements of `s` that `other` does not contain, in order.
pub open spec fn keep_missing(s: Seq<u64>, other: Seq<u64>) -> Seq<u64>
    decreases s.len(),
{
    if s.len() == 0 {
        Seq::empty()
    } else {
        let front = keep_missing(s.drop_last(), other);
        if other.contains(s.last()) {
            front
        } else {
            front.push(s.last())
        }
    }
}

/// Returns the difference between two sorted arrays of unique elements:
/// first the elements only in `prev` (removed), then the elements only in
/// `curr` (added), each in ascending order.
pub fn diff_sorted_unique_arrays(prev: &Vec<u64>, curr: &Vec<u64>) -> (r: (Vec<u64>, Vec<u64>))
    requires
        strictly_sorted(prev@),
        strictly_sorted(curr@),
    ensures
        r.0@ == keep_missing(prev@, curr@),
        r.1@ == keep_missing(curr@, prev@),
{
    let mut removed: Vec<u64> = Vec::new();
    let mut added: Vec<u64> = Vec::new();
    let mut i: usize = 0;
    let mut j: usize = 0;

    while i < prev.len() && j < curr.len()
        invariant
            strictly_sorted(prev@),
            strictly_sorted(curr@),
            i <= prev@.len(),
            j <= curr@.len(),
            i < prev@.len() ==> forall|k: int| 0 <= k < j ==> curr@[k] < prev@[i as int],
            j < curr@.len() ==> forall|k: int| 0 <= k < i ==> prev@[k] < curr@[j as int],
            removed@ == keep_missing(prev@.subrange(0, i as int), curr@),
            added@ == keep_missing(curr@.subrange(0, j as int), prev@),
        decreases prev@.len() - i + curr@.len() - j,
    {
        proof {
            let pre_p = prev@.subrange(0, i as int);
            let post_p = prev@.subrange(0, i + 1);
            assert(post_p.drop_last() =~= pre_p);
            assert(post_p.last() == prev@[i as int]);
            let pre_c = curr@.subrange(0, j as int);
            let post_c = curr@.subrange(0, j + 1);
            assert(post_c.drop_last() =~= pre_c);
            assert(post_c.last() == curr@[j as int]);
        }
        if prev[i] < curr[j] {
            proof {
                assert(!curr@.contains(prev@[i as int])) by {
                    assert forall|k: int| 0 <= k < curr@.len() implies curr@[k] != prev@[i as int] by {
                        if k >= j {
                            assert(curr@[k] >= curr@[j as int]);
                        }
                    }
                }
            }
            removed.push(prev[i]);
            i += 1;
        } else if prev[i] > curr[j] {
            proof {
                assert(!prev@.contains(curr@[j as int])) by {
                    assert forall|k: int| 0 <= k < prev@.len() implies prev@[k] != curr@[j as int] by {
                        if k >= i {
                            assert(prev@[k] >= prev@[i as int]);
                        }
                    }
                }
            }
            added.push(curr[j]);
            j += 1;
        } else {
            proof {
                assert(curr@.contains(prev@[i as int])) by {
                    assert(curr@[j as int] == prev@[i as int]);
                }
                assert(prev@.contains(curr@[j as int])) by {
                    assert(prev@[i as int] == curr@[j as int]);
                }
            }
            i += 1;
            j += 1;
        }
    }

    // Everything left in `prev` is missing from `curr`.
    while i < prev.len()
        invariant
            strictly_sorted(prev@),
            strictly_sorted(curr@),
            i <= prev@.len(),
            j == curr@.len() || i == prev@.len(),
            i < prev@.len() ==> forall|k: int| 0 <= k < j ==> curr@[k] < prev@[i as int],
            removed@ == keep_missing(prev@.subrange(0, i as int), curr@),
            added@ == keep_missing(curr@.subrange(0, j as int), prev@),
        decreases prev@.len() - i,
    {
        proof {
            let pre_p = prev@.subrange(0, i as int);
            let post_p = prev@.subrange(0, i + 1);
            assert(post_p.drop_last() =~= pre_p);
            assert(post_p.last() == prev@[i as int]);
            assert(!curr@.contains(prev@[i as int])) by {
                assert forall|k: int| 0 <= k < curr@.len() implies curr@[k] != prev@[i as int] by {
                    assert(curr@[k] < prev@[i as int]);
                }
            }
        }
        removed.push(prev[i]);
        i += 1;
    }

    // Everything left in `curr` is missing from `prev`.
    while j < curr.len()
        invariant
            strictly_sorted(prev@),
            strictly_sorted(curr@),
            j <= curr@.len(),
            i == prev@.len(),
            j < curr@.len() ==> forall|k: int| 0 <= k < i ==> prev@[k] < curr@[j as int],
            removed@ == keep_missing(prev@.subrange(0, i as int), curr@),
            added@ == keep_missing(curr@.subrange(0, j as int), prev@),
        decreases curr@.len() - j,
    {
        proof {
            let pre_c = curr@.subrange(0, j as int);
            let post_c = curr@.subrange(0, j + 1);
            assert(post_c.drop_last() =~= pre_c);
            assert(post_c.last() == curr@[j as int]);
            assert(!prev@.contains(curr@[j as int])) by {
                assert forall|k: int| 0 <= k < prev@.len() implies prev@[k] != curr@[j as int] by {
                    assert(prev@[k] < curr@[j as int]);
                }
            }
        }
        added.push(curr[j]);
        j += 1;
    }

    proof {
        assert(prev@.subrange(0, prev@.len() as int) =~= prev@);
        assert(curr@.subrange(0, curr@.len() as int) =~= curr@);
    }
    (removed, added)
}

} // verus!
