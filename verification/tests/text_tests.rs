use osint_core::text::{fuzzy_similarity, levenshtein_distance, str_contains, str_eq};

#[test]
fn test_levenshtein_distance() {
    assert_eq!(levenshtein_distance("hello", "hello"), 0);
    assert_eq!(levenshtein_distance("hello", "hallo"), 1);
    assert_eq!(levenshtein_distance("hello", "world"), 4);
}

#[test]
fn test_levenshtein_asymmetric_lengths() {
    assert_eq!(levenshtein_distance("", "abc"), 3);
    assert_eq!(levenshtein_distance("abc", ""), 3);
    assert_eq!(levenshtein_distance("kitten", "sitting"), 3);
}

#[test]
fn test_fuzzy_similarity_boundary() {
    // Edit distance 1 over length 5: similarity exactly 0.8, which does
    // not strictly exceed the fuzzy threshold.
    assert_eq!(fuzzy_similarity("hello", "hallo"), 800_000);
    assert_eq!(fuzzy_similarity("hello", "hello"), 1_000_000);
    assert_eq!(fuzzy_similarity("Hello", "hELLO"), 1_000_000);
}

#[test]
fn test_str_contains() {
    assert!(str_contains("malware.example.com", "example"));
    assert!(str_contains("abc", ""));
    assert!(!str_contains("abc", "abd"));
    assert!(!str_contains("ab", "abc"));
}

#[test]
fn test_str_eq() {
    assert!(str_eq("abc", "abc"));
    assert!(!str_eq("abc", "abd"));
}
