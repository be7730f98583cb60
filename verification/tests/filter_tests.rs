use common::filter::{
    common_prefix_len, sort_with, Distance, Levenshtein, StartsWithIgnoreCase, StrFilter, StrMetric,
};

#[test]
fn test_levenshtein_same() {
    let check = |a: &str, b: &str, dist: usize, algo: Levenshtein| {
        let a: Vec<char> = a.chars().collect();
        let b: Vec<char> = b.chars().collect();
        assert_eq!(dist, algo.recursive_distance(&a, &b), "failed recursive");
        assert_eq!(dist, algo.recursive_distance(&b, &a), "failed recursive reversed");
        assert_eq!(dist, algo.dynamic_distance(&a, &b), "failed iterative");
        assert_eq!(dist, algo.dynamic_distance(&b, &a), "failed iterative reversed");
    };
    check("Levenshtein", "Levenshtein", 0, Levenshtein::new(false));
    check("levENSHTein", "LEVENshtein", 0, Levenshtein::new(true));
}

#[test]
fn test_levenshtein_differend() {
    let check = |a: &str, b: &str, dist: usize, algo: Levenshtein| {
        let a: Vec<char> = a.chars().collect();
        let b: Vec<char> = b.chars().collect();
        assert_eq!(dist, algo.recursive_distance(&a, &b), "failed recursive");
        assert_eq!(dist, algo.recursive_distance(&b, &a), "failed recursive reversed");
        assert_eq!(dist, algo.dynamic_distance(&a, &b), "failed iterative");
        assert_eq!(dist, algo.dynamic_distance(&b, &a), "failed iterative reversed");
    };
    check("kitten", "sitting", 3, Levenshtein::new(false));
    check("levENSHTein", "LEVENshtein", 6, Levenshtein::new(false));
}

#[test]
fn normalized_distance() {
    let algo = Levenshtein::new(false);
    assert_eq!(Distance { num: 3, den: 7 }, algo.distance("kitten", "sitting"));
    assert_eq!(Distance { num: 3, den: 7 }, algo.distance("sitting", "kitten"));
    assert_eq!(Distance { num: 0, den: 6 }, algo.distance("kitten", "kitten"));
    assert_eq!(Distance { num: 0, den: 1 }, algo.distance("", ""));
    assert_eq!(Distance { num: 3, den: 3 }, algo.distance("", "abc"));
}

#[test]
fn distance_order() {
    let closer = Distance { num: 1, den: 5 };
    let farther = Distance { num: 2, den: 3 };
    assert!(closer.le(&farther));
    assert!(!farther.le(&closer));
    assert!(Distance { num: 1, den: 2 }.le(&Distance { num: 2, den: 4 }));
    assert!(Distance { num: 2, den: 4 }.le(&Distance { num: 1, den: 2 }));
}

#[test]
fn ranking() {
    let candidates: Vec<String> = ["apple", "apply", "ape"].iter().map(|s| s.to_string()).collect();
    let ranked = sort_with(&Levenshtein::new(false), candidates, "appl");
    assert_eq!(vec!["apple", "apply", "ape"], ranked);
}

#[test]
fn ranking_is_stable_for_ties() {
    let candidates: Vec<String> = ["ba", "ab", "aa"].iter().map(|s| s.to_string()).collect();
    let ranked = sort_with(&Levenshtein::new(false), candidates, "aa");
    assert_eq!(vec!["aa", "ba", "ab"], ranked);
}

#[test]
fn starts_with_filter() {
    assert!(StartsWithIgnoreCase.filter("Levenshtein", "leven"));
    assert!(!StartsWithIgnoreCase.filter("Levenshtein", "sht"));
    assert!(StartsWithIgnoreCase.filter("anything", ""));
    assert!(StartsWithIgnoreCase.filter("", ""));
    assert!(StartsWithIgnoreCase.filter("same", "same"));
    assert_eq!(Distance { num: 0, den: 1 }, StartsWithIgnoreCase.distance("Levenshtein", "LEVEN"));
    assert_eq!(Distance { num: 1, den: 1 }, StartsWithIgnoreCase.distance("Levenshtein", "nope"));
}

#[test]
fn common_prefix_lengths() {
    assert_eq!(4, common_prefix_len("apple", "apply", false));
    assert_eq!(0, common_prefix_len("apple", "Apple", false));
    assert_eq!(5, common_prefix_len("apple", "APPLE", true));
    assert_eq!(3, common_prefix_len("apple", "app", false));
    assert_eq!(0, common_prefix_len("apple", "", false));
}
