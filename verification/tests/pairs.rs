use toktokenizer::pairs::{get_stats, make_key, most_frequent_pair};

#[test]
fn key_holds_left_id_above_right_id() {
    assert_eq!(make_key(0, 0), 0);
    assert_eq!(make_key(0, 7), 7);
    assert_eq!(make_key(1, 0), 4_294_967_296);
    assert_eq!(make_key(3, 4), 12_884_901_892);
    assert_eq!(make_key(u32::MAX, u32::MAX), u64::MAX);
}

#[test]
fn stats_of_short_sequences_are_empty() {
    assert!(get_stats(&[]).is_empty());
    assert!(get_stats(&[5]).is_empty());
}

#[test]
fn stats_count_every_adjacent_pair() {
    let stats = get_stats(&[1, 2, 3, 1, 2]);
    assert_eq!(stats.len(), 3);
    assert_eq!(stats.get(&make_key(1, 2)), Some(&2));
    assert_eq!(stats.get(&make_key(2, 3)), Some(&1));
    assert_eq!(stats.get(&make_key(3, 1)), Some(&1));
    assert_eq!(stats.get(&make_key(2, 1)), None);
}

#[test]
fn stats_count_overlapping_pairs() {
    let stats = get_stats(&[7, 7, 7]);
    assert_eq!(stats.len(), 1);
    assert_eq!(stats.get(&make_key(7, 7)), Some(&2));
}

#[test]
fn stats_of_two_ids_hold_one_pair() {
    let stats = get_stats(&[8, 9]);
    assert_eq!(stats.len(), 1);
    assert_eq!(stats.get(&make_key(8, 9)), Some(&1));
}

#[test]
fn most_frequent_pair_of_short_sequences_is_none() {
    assert_eq!(most_frequent_pair(&[]), None);
    assert_eq!(most_frequent_pair(&[1]), None);
}

#[test]
fn most_frequent_pair_has_the_highest_count() {
    assert_eq!(most_frequent_pair(&[5, 6, 1, 2, 9, 1, 2]), Some((1, 2)));
    assert_eq!(most_frequent_pair(&[1, 2]), Some((1, 2)));
}

#[test]
fn most_frequent_pair_breaks_ties_by_smallest_pair() {
    assert_eq!(most_frequent_pair(&[9, 8, 3, 4]), Some((3, 4)));
    assert_eq!(most_frequent_pair(&[2, 5, 2, 1]), Some((2, 1)));
    assert_eq!(most_frequent_pair(&[256, 97, 98, 100, 256, 97, 98, 97, 99]), Some((97, 98)));
}
