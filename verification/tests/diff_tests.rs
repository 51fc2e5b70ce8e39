//! Tests for the sorted-array difference.

#[test]
fn diff_sorted_unique_arrays() {
    let vec1: Vec<u64> = vec![1, 2, 3, 4, 5];
    let vec2: Vec<u64> = vec![2, 3, 4, 6, 7];

    let (removed, added) = doomslug::diff::diff_sorted_unique_arrays(&vec1, &vec2);

    assert_eq!(removed, vec![1, 5]);
    assert_eq!(added, vec![6, 7]);
}

#[test]
fn diff_sorted_unique_arrays_empty() {
    let vec1: Vec<u64> = vec![1, 2, 3, 4, 5];
    let vec2: Vec<u64> = vec![];

    let (removed, added) = doomslug::diff::diff_sorted_unique_arrays(&vec1, &vec2);

    assert_eq!(removed, vec![1, 2, 3, 4, 5]);
    assert_eq!(added, vec![]);
}

#[test]
fn diff_sorted_unique_arrays_same() {
    let vec1: Vec<u64> = vec![1, 2, 3, 4, 5];
    let vec2: Vec<u64> = vec![1, 2, 3, 4, 5];

    let (removed, added) = doomslug::diff::diff_sorted_unique_arrays(&vec1, &vec2);

    assert_eq!(removed, vec![]);
    assert_eq!(added, vec![]);
}

#[test]
fn diff_sorted_unique_arrays_no_overlap() {
    let vec1: Vec<u64> = vec![1, 2, 3];
    let vec2: Vec<u64> = vec![4, 5, 6];

    let (removed, added) = doomslug::diff::diff_sorted_unique_arrays(&vec1, &vec2);

    assert_eq!(removed, vec![1, 2, 3]);
    assert_eq!(added, vec![4, 5, 6]);
}

#[test]
fn diff_sorted_unique_arrays_dups_quirk() {
    let vec1: Vec<u64> = vec![1, 2, 3, 4, 5];
    let vec2: Vec<u64> = vec![1, 1, 2, 3, 4, 5];

    let (removed, added) = doomslug::diff::diff_sorted_unique_arrays(&vec1, &vec2);

    assert_eq!(removed, vec![]);
    // Ideally, we would get vec![], but the implementation has a quirk around
    // duplicates due to performance reasons
    // assert_eq!(added, vec![]);
    // So, instead we get:
    assert_eq!(added, vec![1]);
}
