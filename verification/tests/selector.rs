use fuzzy_match::algorithms::{Levenshtein, SorensenDice};
use fuzzy_match::{fuzzy_match, fuzzy_match_with_algorithms};

#[test]
fn test_fuzzy_match_basic() {
    let haystack = vec![("rust", 0), ("java", 1), ("lisp", 2)];
    assert_eq!(Some(0), fuzzy_match("bust", haystack));
}

#[test]
fn test_fuzzy_match_swapped_algorithms() {
    let haystack = vec![("rust", 0), ("java", 1), ("lisp", 2)];
    // Search with Levenshtein first, then Sorensen-Dice.
    assert_eq!(
        Some(0),
        fuzzy_match_with_algorithms::<_, Levenshtein, SorensenDice>("bust", haystack)
    );
}

#[test]
fn test_fuzzy_match_tie_broken_by_levenshtein() {
    // "abcx" and "xabc" tie on bigram overlap with "abcd" (two shared bigrams
    // each), but "abcx" is one edit away where "xabc" is two.
    let haystack = vec![("abcx", 1), ("xabc", 2)];
    assert_eq!(Some(1), fuzzy_match("abcd", haystack));
}

#[test]
fn test_fuzzy_match_unresolved_tie() {
    // "abcx" and "abcy" tie on both algorithms against "abcd": no winner is
    // picked arbitrarily.
    let haystack = vec![("abcx", 1), ("abcy", 2)];
    assert_eq!(None, fuzzy_match("abcd", haystack));
}

#[test]
fn test_fuzzy_match_exact_name_wins() {
    let haystack = vec![("java", 1), ("rust", 0), ("ruby", 2)];
    assert_eq!(Some(0), fuzzy_match("rust", haystack));
}

#[test]
fn test_fuzzy_match_all_scores_zero_single_candidate() {
    // With one candidate there is exactly one winner even at score zero.
    let haystack = vec![("zzz", 9)];
    assert_eq!(Some(9), fuzzy_match("abc", haystack));
}

#[test]
fn test_fuzzy_match_all_scores_zero_tie() {
    // Two candidates both scoring zero under both algorithms stay tied.
    let haystack = vec![("zz", 1), ("qq", 2)];
    assert_eq!(None, fuzzy_match("abcdefgh", haystack));
}

#[test]
fn test_fuzzy_match_empty_needle() {
    // Two empty strings are identical and score 1.0, so the empty candidate
    // wins outright.
    let haystack = vec![("", 7), ("abc", 8)];
    assert_eq!(Some(7), fuzzy_match("", haystack));
}

#[test]
fn test_fuzzy_match_after_odd_length_candidate() {
    // One algorithm instance scores the whole haystack; scoring the
    // odd-length "enhance" first must not disturb the score of "rust".
    let haystack = vec![("enhance", 0), ("rust", 1)];
    assert_eq!(Some(1), fuzzy_match("bust", haystack));
}

#[test]
fn test_fuzzy_match_payload_returned_verbatim() {
    // The sole best-scoring candidate's payload comes back verbatim, and the
    // payload type carries no constraints.
    let haystack = vec![("alpha", String::from("first")), ("alphabet", String::from("second"))];
    assert_eq!(Some(String::from("first")), fuzzy_match("alpha", haystack));
}
