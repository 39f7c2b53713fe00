use toktokenizer::merger::merge;

#[test]
fn test_merge() {
    let merged = merge(&[1, 2, 3, 4, 4, 4, 5, 6], (3, 4), 10);
    assert_eq!(merged, [1, 2, 10, 4, 4, 5, 6]);
}

#[test]
fn merge_of_empty_sequence_is_empty() {
    let merged = merge(&[], (3, 4), 10);
    assert_eq!(merged, Vec::<u32>::new());
}

#[test]
fn merge_of_single_id_is_unchanged() {
    assert_eq!(merge(&[3], (3, 4), 10), [3]);
    assert_eq!(merge(&[4], (3, 4), 10), [4]);
}

#[test]
fn merge_does_not_reuse_the_right_half() {
    assert_eq!(merge(&[4, 4, 4], (4, 4), 9), [9, 4]);
    assert_eq!(merge(&[4, 4, 4, 4], (4, 4), 9), [9, 9]);
    assert_eq!(merge(&[4, 4, 4, 4, 4], (4, 4), 9), [9, 9, 4]);
}

#[test]
fn merge_replaces_a_pair_at_the_end() {
    assert_eq!(merge(&[3, 4], (3, 4), 10), [10]);
    assert_eq!(merge(&[1, 3, 4], (3, 4), 10), [1, 10]);
}

#[test]
fn merge_replaces_every_occurrence() {
    assert_eq!(merge(&[3, 4, 3, 4, 7, 3, 4], (3, 4), 10), [10, 10, 7, 10]);
}

#[test]
fn merge_of_absent_pair_changes_nothing() {
    let ids = [1, 2, 3, 4, 4, 4, 5, 6];
    assert_eq!(merge(&ids, (4, 3), 10), ids);
    assert_eq!(merge(&ids, (9, 9), 10), ids);
    assert_eq!(merge(&ids, (6, 1), 10), ids);
}

#[test]
fn merge_wants_both_halves_in_order() {
    assert_eq!(merge(&[4, 3, 4, 3], (3, 4), 10), [4, 10, 3]);
}
