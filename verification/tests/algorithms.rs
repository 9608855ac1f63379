use std::collections::HashSet;

use fuzzy_match::algorithms::{Levenshtein, SimilarityAlgorithm, SorensenDice};

/// Scores are scaled by 100000; the original interface speaks in f32.
fn as_f32(score: u32) -> f32 {
    score as f32 / 100_000f32
}

// Test to catch sliding_window panics
#[test]
fn test_sorensen_bigrams_single_char() {
    assert_eq!(0, SorensenDice::new().str_to_char_set("b").len());
}

#[test]
fn test_sorensen_bigrams_correctness() {
    let mut bigrams = HashSet::new();
    bigrams.insert(('r', 'u'));
    bigrams.insert(('u', 's'));
    bigrams.insert(('s', 't'));
    let got: HashSet<(char, char)> = SorensenDice::new()
        .str_to_char_set("rust")
        .into_iter()
        .collect();
    assert_eq!(bigrams, got);
}

#[test]
fn test_sorensen_eq_strs() {
    assert_eq!(1f32, as_f32(SorensenDice::new().get_similarity("string", "string")));
}

#[test]
fn test_sorensen_one_char() {
    assert_eq!(0f32, as_f32(SorensenDice::new().get_similarity("a", "b")));
}

#[test]
fn test_sorensen_empty_str() {
    assert_eq!(0f32, as_f32(SorensenDice::new().get_similarity("string", "")));
}

// Added due to sliding_window panic when either string is size 1
#[test]
fn test_sorensen_one_short() {
    assert_eq!(0f32, as_f32(SorensenDice::new().get_similarity("rust", "b")))
}

#[test]
fn test_sorensen_correctness() {
    let mut inst = SorensenDice::new();
    assert_eq!(0.66667f32, as_f32(inst.get_similarity("rust", "bust")));
    assert_eq!(0.0f32, as_f32(inst.get_similarity("rust", "ritz")));
    assert_eq!(0.72727f32, as_f32(inst.get_similarity("chance", "enhance")));
}

#[test]
fn test_levenshtein_eq_strs() {
    assert_eq!(1f32, as_f32(Levenshtein::new().get_similarity("string", "string")));
}

#[test]
fn test_levenshtein_one_char() {
    assert_eq!(0f32, as_f32(Levenshtein::new().get_similarity("a", "b")));
}

#[test]
fn test_levenshtein_empty_str() {
    assert_eq!(0f32, as_f32(Levenshtein::new().get_similarity("string", "")));
}

#[test]
fn test_levenshtein_correctness() {
    let mut inst = Levenshtein::new();
    assert_eq!(0.75f32, as_f32(inst.get_similarity("rust", "bust")));
    assert_eq!(0.25f32, as_f32(inst.get_similarity("rust", "ritz")));
    assert_eq!(0.71429f32, as_f32(inst.get_similarity("chance", "enhance")));
}

#[test]
fn test_sorensen_bigrams_empty_str() {
    assert_eq!(0, SorensenDice::new().str_to_char_set("").len());
}

#[test]
fn test_sorensen_bigrams_exclude_space() {
    // "a b" has only the pairs ('a', ' ') and (' ', 'b'); both contain a
    // space, so the bigram set is empty.
    let set = SorensenDice::new().str_to_char_set("a b");
    for &(x, y) in set.iter() {
        assert_ne!(x, ' ');
        assert_ne!(y, ' ');
    }
    assert_eq!(0, set.len());
}

#[test]
fn test_sorensen_bigrams_space_inside() {
    // Pairs straddling the space are dropped; the others stay.
    let set: HashSet<(char, char)> = SorensenDice::new()
        .str_to_char_set("ab cd")
        .into_iter()
        .collect();
    let mut expected = HashSet::new();
    expected.insert(('a', 'b'));
    expected.insert(('c', 'd'));
    assert_eq!(expected, set);
}

#[test]
fn test_sorensen_both_bigram_sets_empty() {
    // Neither string is empty or a single character, but both bigram sets
    // come out empty: the score is defined as zero, not a division by zero.
    assert_eq!(0f32, as_f32(SorensenDice::new().get_similarity("a b", "c d")));
}

#[test]
fn test_sorensen_symmetry() {
    let mut inst = SorensenDice::new();
    assert_eq!(
        inst.get_similarity("rust", "bust"),
        inst.get_similarity("bust", "rust")
    );
    assert_eq!(
        inst.get_similarity("chance", "enhance"),
        inst.get_similarity("enhance", "chance")
    );
}

#[test]
fn test_levenshtein_symmetry() {
    let mut inst = Levenshtein::new();
    assert_eq!(
        inst.get_similarity("rust", "bust"),
        inst.get_similarity("bust", "rust")
    );
    assert_eq!(
        inst.get_similarity("chance", "enhance"),
        inst.get_similarity("enhance", "chance")
    );
}

#[test]
fn test_sorensen_scratch_reuse_after_odd_length() {
    // Reusing one instance must not leak scratch state between calls: an
    // extraction from an odd-length string leaves the crate's window cursor
    // off zero, and a stale cursor would rotate the next run's windows.
    let mut inst = SorensenDice::new();
    assert_eq!(6, inst.str_to_char_set("enhance").len());
    let mut bigrams = HashSet::new();
    bigrams.insert(('r', 'u'));
    bigrams.insert(('u', 's'));
    bigrams.insert(('s', 't'));
    let got: HashSet<(char, char)> = inst.str_to_char_set("rust").into_iter().collect();
    assert_eq!(bigrams, got);
}

#[test]
fn test_sorensen_score_after_odd_length() {
    // Equal inputs give equal scores whatever was scored before.
    let mut inst = SorensenDice::new();
    assert_eq!(0, inst.get_similarity("bust", "enhance"));
    assert_eq!(66667, inst.get_similarity("bust", "rust"));
    let mut fresh = SorensenDice::new();
    assert_eq!(66667, fresh.get_similarity("bust", "rust"));
}

#[test]
fn test_scaled_scores_exact() {
    // The same known values, read directly in the scaled-integer form.
    let mut sd = SorensenDice::new();
    assert_eq!(66667, sd.get_similarity("rust", "bust"));
    assert_eq!(72727, sd.get_similarity("chance", "enhance"));
    let mut lev = Levenshtein::new();
    assert_eq!(75000, lev.get_similarity("rust", "bust"));
    assert_eq!(25000, lev.get_similarity("rust", "ritz"));
    assert_eq!(71429, lev.get_similarity("chance", "enhance"));
}
