use featomatic::combination::{advance, first_combination};
use featomatic::feature_set::{feature_set_string, optional_features, FeatureSets};
use itertools::Itertools;

fn names(items: &[&str]) -> Vec<String> {
    items.iter().map(|s| s.to_string()).collect()
}

fn all_sets(items: &[&str]) -> Vec<String> {
    let mut sets = FeatureSets::new(names(items));
    let mut out = Vec::new();
    while let Some(set) = sets.next_set() {
        out.push(set);
    }
    out
}

fn letters(count: usize) -> Vec<String> {
    (0..count).map(|i| format!("f{}", i)).collect()
}

fn binomial(n: u64, k: u64) -> u64 {
    if k > n {
        return 0;
    }
    let mut value = 1u64;
    for i in 0..k {
        value = value * (n - i) / (i + 1);
    }
    value
}

#[test]
fn three_features_in_order() {
    assert_eq!(all_sets(&["a", "b", "c"]), vec!["a", "b", "c", "a b", "a c", "b c"]);
}

#[test]
fn no_features_give_no_sets() {
    assert_eq!(all_sets(&[]), Vec::<String>::new());
}

#[test]
fn one_feature_gives_no_sets() {
    assert_eq!(all_sets(&["solo"]), Vec::<String>::new());
}

#[test]
fn two_features_give_each_alone() {
    assert_eq!(all_sets(&["x", "y"]), vec!["x", "y"]);
}

#[test]
fn four_features_in_order() {
    assert_eq!(
        all_sets(&["a", "b", "c", "d"]),
        vec![
            "a", "b", "c", "d", "a b", "a c", "a d", "b c", "b d", "c d", "a b c", "a b d",
            "a c d", "b c d",
        ]
    );
}

#[test]
fn count_is_the_sum_of_the_binomials() {
    for k in 0..12u64 {
        let features = letters(k as usize);
        let sets = FeatureSets::new(features).collect_remaining();
        let expected: u64 = (1..k).map(|n| binomial(k, n)).sum();
        assert_eq!(sets.len() as u64, expected);
        if k >= 1 {
            assert_eq!(sets.len() as u64, (1u64 << k) - 2);
        } else {
            assert_eq!(sets.len(), 0);
        }
    }
}

#[test]
fn count_for_five_features_is_thirty() {
    assert_eq!(FeatureSets::new(letters(5)).collect_remaining().len(), 30);
}

#[test]
fn full_set_never_appears() {
    for k in 2..9usize {
        let features = letters(k);
        let full = features.join(" ");
        let sets = FeatureSets::new(features).collect_remaining();
        assert!(!sets.contains(&full));
        assert!(sets.iter().all(|set| set.len() < full.len()));
    }
}

#[test]
fn empty_set_never_appears() {
    for k in 0..7usize {
        let sets = FeatureSets::new(letters(k)).collect_remaining();
        assert!(sets.iter().all(|set| !set.is_empty()));
    }
}

#[test]
fn enumerating_again_gives_the_same_sequence() {
    let features = names(&["serde", "std", "alloc", "nightly", "unstable"]);
    let first = FeatureSets::new(features.clone()).collect_remaining();
    let second = FeatureSets::new(features.clone()).collect_remaining();
    assert_eq!(first, second);
    let mut stepped = FeatureSets::new(features);
    let mut third = Vec::new();
    while let Some(set) = stepped.next_set() {
        third.push(set);
    }
    assert_eq!(first, third);
}

#[test]
fn each_set_lists_its_members_once_and_in_order() {
    let features = letters(6);
    for set in FeatureSets::new(features.clone()).collect_remaining() {
        assert!(!set.starts_with(' '));
        assert!(!set.ends_with(' '));
        assert!(!set.contains("  "));
        let places: Vec<usize> = set
            .split(' ')
            .map(|name| features.iter().position(|f| f == name).unwrap())
            .collect();
        assert!(!places.is_empty());
        assert!(places.len() < features.len());
        assert!(places.windows(2).all(|pair| pair[0] < pair[1]));
    }
}

#[test]
fn every_proper_subset_appears_once() {
    let features = letters(5);
    let sets = FeatureSets::new(features.clone()).collect_remaining();
    for mask in 1u32..(1 << 5) - 1 {
        let text = (0..5)
            .filter(|i| mask & (1 << i) != 0)
            .map(|i| features[i].as_str())
            .collect::<Vec<_>>()
            .join(" ");
        assert_eq!(sets.iter().filter(|set| **set == text).count(), 1);
    }
}

#[test]
fn agrees_with_combinations_and_join_of_itertools() {
    for k in 0..8usize {
        let features = letters(k);
        let expected: Vec<String> = (1..features.len())
            .flat_map(|n| {
                features.iter().combinations(n).map(|combination| combination.iter().join(" "))
            })
            .collect();
        assert_eq!(FeatureSets::new(features).collect_remaining(), expected);
    }
}

#[test]
fn names_are_taken_as_they_are() {
    assert_eq!(
        all_sets(&["with space", "", "é"]),
        vec!["with space", "", "é", "with space ", "with space é", " é"]
    );
}

#[test]
fn collect_remaining_goes_on_where_next_set_stopped() {
    let mut sets = FeatureSets::new(names(&["a", "b", "c"]));
    assert_eq!(sets.next_set(), Some("a".to_string()));
    assert_eq!(sets.next_set(), Some("b".to_string()));
    assert_eq!(sets.collect_remaining(), vec!["c", "a b", "a c", "b c"]);
    assert_eq!(sets.next_set(), None);
    assert_eq!(sets.collect_remaining(), Vec::<String>::new());
}

#[test]
fn next_set_stays_at_the_end() {
    let mut sets = FeatureSets::new(names(&["a", "b"]));
    assert_eq!(sets.next_set(), Some("a".to_string()));
    assert_eq!(sets.next_set(), Some("b".to_string()));
    assert_eq!(sets.next_set(), None);
    assert_eq!(sets.next_set(), None);
}

#[test]
fn feature_set_string_joins_the_picked_names() {
    let features = names(&["a", "b", "c", "d"]);
    assert_eq!(feature_set_string(&features, &vec![0, 2, 3]), "a c d");
    assert_eq!(feature_set_string(&features, &vec![1]), "b");
    assert_eq!(feature_set_string(&features, &vec![]), "");
    assert_eq!(feature_set_string(&features, &vec![0, 1, 2, 3]), "a b c d");
}

#[test]
fn first_combination_counts_up_from_zero() {
    assert_eq!(first_combination(0), Vec::<usize>::new());
    assert_eq!(first_combination(1), vec![0]);
    assert_eq!(first_combination(4), vec![0, 1, 2, 3]);
}

#[test]
fn advance_walks_the_pairs_of_four() {
    let mut indices = first_combination(2);
    let mut seen = vec![indices.clone()];
    while advance(&mut indices, 4) {
        seen.push(indices.clone());
    }
    assert_eq!(
        seen,
        vec![vec![0, 1], vec![0, 2], vec![0, 3], vec![1, 2], vec![1, 3], vec![2, 3]]
    );
    assert_eq!(indices, vec![2, 3]);
}

#[test]
fn advance_resets_the_indices_after_the_pivot() {
    let mut indices = vec![0, 3, 4];
    assert!(advance(&mut indices, 5));
    assert_eq!(indices, vec![1, 2, 3]);
}

#[test]
fn advance_stops_at_the_last_combination() {
    let mut indices = vec![2, 3, 4];
    assert!(!advance(&mut indices, 5));
    assert_eq!(indices, vec![2, 3, 4]);
    let mut full = vec![0, 1, 2];
    assert!(!advance(&mut full, 3));
    assert_eq!(full, vec![0, 1, 2]);
    let mut empty: Vec<usize> = Vec::new();
    assert!(!advance(&mut empty, 3));
    assert!(empty.is_empty());
}

#[test]
fn advance_agrees_with_combinations_of_itertools() {
    for pool in 0..7usize {
        for size in 0..=pool {
            let expected: Vec<Vec<usize>> = (0..pool).combinations(size).collect();
            let mut indices = first_combination(size);
            let mut seen = vec![indices.clone()];
            while advance(&mut indices, pool) {
                seen.push(indices.clone());
            }
            assert_eq!(seen, expected);
        }
    }
}

#[test]
fn optional_features_leave_out_default() {
    assert_eq!(
        optional_features(&names(&["serde", "default", "std"])),
        names(&["serde", "std"])
    );
    assert_eq!(optional_features(&names(&["default"])), Vec::<String>::new());
    assert_eq!(optional_features(&names(&[])), Vec::<String>::new());
    assert_eq!(
        optional_features(&names(&["default", "a", "default", "b"])),
        names(&["a", "b"])
    );
}

#[test]
fn optional_features_keep_names_that_only_resemble_default() {
    let given = names(&["Default", "default ", "defaults", "", "no-default"]);
    assert_eq!(optional_features(&given), given);
}
