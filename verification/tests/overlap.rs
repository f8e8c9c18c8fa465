use contribai::overlap::word_overlap_ratio;

fn ratio(a: &[&str], b: &[&str]) -> f64 {
    let a: Vec<String> = a.iter().map(|s| s.to_string()).collect();
    let b: Vec<String> = b.iter().map(|s| s.to_string()).collect();
    let r = word_overlap_ratio(&a, &b);
    2.0 * r.common as f64 / r.total as f64
}

#[test]
fn test_word_overlap_ratio_identical() {
    let words: Vec<&str> = vec!["foo", "bar", "baz"];
    let ratio = ratio(&words, &words);
    assert!((ratio - 1.0).abs() < 1e-6);
}

#[test]
fn test_word_overlap_ratio_disjoint() {
    let a = vec!["foo", "bar"];
    let b = vec!["qux", "quux"];
    let ratio = ratio(&a, &b);
    assert!((ratio - 0.0).abs() < 1e-6);
}

#[test]
fn test_word_overlap_ratio_partial() {
    let a = vec!["foo", "bar", "baz"];
    let b = vec!["foo", "bar", "qux"];
    let ratio = ratio(&a, &b);
    // intersection = 2, total = 6 → 2*2/6 ≈ 0.667
    assert!(ratio > 0.5 && ratio < 1.0);
}

#[test]
fn overlap_of_empty_lists() {
    assert_eq!(ratio(&[], &[]), 1.0);
    assert_eq!(ratio(&[], &["a"]), 0.0);
    assert_eq!(ratio(&["a"], &[]), 0.0);
}

#[test]
fn repeated_words_count_as_often_as_on_both_sides() {
    let a = ["x", "x", "x", "y"];
    let b = ["x", "x", "z"];
    // Two of them are shared, of seven words.
    assert_eq!(ratio(&a, &b), 4.0 / 7.0);
    assert_eq!(ratio(&b, &a), 4.0 / 7.0);
}

#[test]
fn ratios_are_compared_exactly() {
    let words = |s: &str| s.split(' ').map(|w| w.to_string()).collect::<Vec<String>>();
    let two_thirds = word_overlap_ratio(&words("a b x"), &words("a b y"));
    let half = word_overlap_ratio(&words("a x"), &words("a y"));
    assert!(two_thirds.exceeds(half));
    assert!(!half.exceeds(two_thirds));
    assert!(!half.exceeds(half));
    assert!(!two_thirds.is_close());
    let four_fifths = word_overlap_ratio(&words("a b c d x"), &words("a b c d y"));
    assert!(four_fifths.is_close());
}
