//! Fuzzy string lookup: find, among a set of candidate strings with attached
//! payloads, the one most similar to a query string.
//!
//! The selector scans all candidates with a primary similarity algorithm and
//! keeps the best-scoring ones; if several tie, it rescans only those with a
//! secondary algorithm. A single winner's payload is returned; a tie that
//! survives both phases is reported as no match rather than guessed at.
//!
//! Similarity scores are rationals in `[0, 1]` rounded to five decimal places;
//! they are represented throughout as integers scaled by `100000`, so that a
//! score of `1.0` is `100000` and `0.66667` is `66667`.

use vstd::prelude::*;

pub mod algorithms;
pub mod util;

use crate::algorithms::{SimilarityAlgorithm, SorensenDice, Levenshtein};

verus! {

/// The highest score algorithm `A` gives any candidate name of `hs` against
/// `needle`; zero when `hs` is empty. Scores are never negative, so this is
/// the running maximum of a scan that starts from zero.
pub open spec fn phase_max<A: SimilarityAlgorithm, T>(
    needle: Seq<char>,
    hs: Seq<(&str, T)>,
) -> int
    decreases hs.len(),
{
    if hs.len() == 0 {
        0
    } else {
        let prev = phase_max::<A, T>(needle, hs.drop_last());
        let w = A::spec_similarity(needle, hs.last().0@);
        if w > prev {
            w
        } else {
            prev
        }
    }
}

/// The candidates of `hs` whose name scores exactly `w` under algorithm `A`
/// against `needle`, in input order.
pub open spec fn winners_with<A: SimilarityAlgorithm, T>(
    needle: Seq<char>,
    hs: Seq<(&str, T)>,
    w: int,
) -> Seq<(&str, T)> {
    hs.filter(|p: (&str, T)| A::spec_similarity(needle, p.0@) == w)
}

/// The winner set of one scan phase: the candidates achieving the phase's
/// highest score, in input order.
pub open spec fn phase_winners<A: SimilarityAlgorithm, T>(
    needle: Seq<char>,
    hs: Seq<(&str, T)>,
) -> Seq<(&str, T)> {
    winners_with::<A, T>(needle, hs, phase_max::<A, T>(needle, hs))
}

/// The result of the two-phase selection protocol: the payload of the sole
/// winner of the primary phase; failing that, the payload of the sole winner
/// of the secondary phase run over the primary winner set; failing that,
/// nothing — an unresolved tie is never broken arbitrarily.
pub open spec fn spec_fuzzy_match<FST: SimilarityAlgorithm, SND: SimilarityAlgorithm, T>(
    needle: Seq<char>,
    haystack: Seq<(&str, T)>,
) -> Option<T> {
    let w1 = phase_winners::<FST, T>(needle, haystack);
    if w1.len() == 1 {
        Some(w1[0].1)
    } else {
        let w2 = phase_winners::<SND, T>(needle, w1);
        if w2.len() == 1 {
            Some(w2[0].1)
        } else {
            None
        }
    }
}

/// Extending a scan by one candidate raises the phase maximum to that
/// candidate's score exactly when the score beats the old maximum.
proof fn lemma_phase_max_push<A: SimilarityAlgorithm, T>(
    needle: Seq<char>,
    hs: Seq<(&str, T)>,
    x: (&str, T),
)
    ensures
        phase_max::<A, T>(needle, hs.push(x)) == if A::spec_similarity(needle, x.0@)
            > phase_max::<A, T>(needle, hs) {
            A::spec_similarity(needle, x.0@)
        } else {
            phase_max::<A, T>(needle, hs)
        },
{
    assert(hs.push(x).drop_last() =~= hs);
    assert(hs.push(x).last() == x);
}

/// No candidate scores above the phase maximum.
proof fn lemma_phase_max_is_bound<A: SimilarityAlgorithm, T>(needle: Seq<char>, hs: Seq<(&str, T)>)
    ensures
        forall|k: int|
            0 <= k < hs.len() ==> A::spec_similarity(needle, #[trigger] hs[k].0@)
                <= phase_max::<A, T>(needle, hs),
    decreases hs.len(),
{
    if hs.len() > 0 {
        lemma_phase_max_is_bound::<A, T>(needle, hs.drop_last());
        assert forall|k: int| 0 <= k < hs.len() implies A::spec_similarity(
            needle,
            #[trigger] hs[k].0@,
        ) <= phase_max::<A, T>(needle, hs) by {
            if k < hs.len() - 1 {
                assert(hs.drop_last()[k] == hs[k]);
            } else {
                assert(hs.last() == hs[k]);
            }
        }
    }
}

/// Extending a scan by one candidate appends it to the winner set for score
/// `w` exactly when it scores `w`.
proof fn lemma_winners_with_push<A: SimilarityAlgorithm, T>(
    needle: Seq<char>,
    hs: Seq<(&str, T)>,
    x: (&str, T),
    w: int,
)
    ensures
        winners_with::<A, T>(needle, hs.push(x), w) == if A::spec_similarity(needle, x.0@) == w {
            winners_with::<A, T>(needle, hs, w).push(x)
        } else {
            winners_with::<A, T>(needle, hs, w)
        },
{
    broadcast use vstd::prelude::Seq::lemma_filter_push;

}

/// A score no candidate achieves has an empty winner set.
proof fn lemma_winners_with_none<A: SimilarityAlgorithm, T>(
    needle: Seq<char>,
    hs: Seq<(&str, T)>,
    w: int,
)
    requires
        forall|k: int| 0 <= k < hs.len() ==> A::spec_similarity(needle, #[trigger] hs[k].0@) != w,
    ensures
        winners_with::<A, T>(needle, hs, w) == Seq::<(&str, T)>::empty(),
    decreases hs.len(),
{
    reveal(Seq::filter);
    if hs.len() > 0 {
        assert forall|k: int| 0 <= k < hs.drop_last().len() implies A::spec_similarity(
            needle,
            #[trigger] hs.drop_last()[k].0@,
        ) != w by {
            assert(hs.drop_last()[k] == hs[k]);
        }
        lemma_winners_with_none::<A, T>(needle, hs.drop_last(), w);
        assert(hs.last() == hs[hs.len() - 1]);
    }
}

/// One scan phase: find the highest score algorithm `A` gives any candidate
/// name against the needle, and return the candidates achieving it, in input
/// order. This consumes the input vector.
fn scan_phase<'a, A: SimilarityAlgorithm, T>(needle: &str, haystack: Vec<(&'a str, T)>) -> (winners:
    Vec<(&'a str, T)>)
    ensures
        winners@ == phase_winners::<A, T>(needle@, haystack@),
{
    let ghost orig = haystack@;
    let mut haystack = haystack;
    let mut algo = A::new();
    let mut winners: Vec<(&'a str, T)> = Vec::new();
    let mut highest: u32 = 0;
    proof {
        assert(orig.take(0) =~= Seq::<(&'a str, T)>::empty());
        reveal(Seq::filter);
    }
    while haystack.len() > 0
        invariant
            haystack@.len() <= orig.len(),
            haystack@ == orig.subrange(orig.len() - haystack@.len(), orig.len() as int),
            highest as int == phase_max::<A, T>(needle@, orig.take(orig.len() - haystack@.len())),
            winners@ == winners_with::<A, T>(
                needle@,
                orig.take(orig.len() - haystack@.len()),
                highest as int,
            ),
        decreases haystack@.len(),
    {
        let ghost i = orig.len() - haystack@.len();
        let ghost pre = orig.take(i);
        let (name, item) = haystack.remove(0);
        proof {
            assert(name == orig[i].0 && item == orig[i].1);
            assert(haystack@ =~= orig.subrange(i + 1, orig.len() as int));
            assert(orig.take(i + 1) =~= pre.push(orig[i]));
            lemma_phase_max_push::<A, T>(needle@, pre, orig[i]);
        }
        let weight = algo.get_similarity(needle, name);
        if weight == highest {
            proof {
                lemma_winners_with_push::<A, T>(needle@, pre, orig[i], highest as int);
            }
            winners.push((name, item));
        } else if weight > highest {
            proof {
                lemma_phase_max_is_bound::<A, T>(needle@, pre);
                lemma_winners_with_none::<A, T>(needle@, pre, weight as int);
                lemma_winners_with_push::<A, T>(needle@, pre, orig[i], weight as int);
            }
            highest = weight;
            winners.clear();
            winners.push((name, item));
        } else {
            proof {
                lemma_winners_with_push::<A, T>(needle@, pre, orig[i], highest as int);
            }
        }
    }
    proof {
        assert(orig.take(orig.len() - haystack@.len()) =~= orig);
    }
    winners
}

/// Fuzzy finds a set of string-item pairs using a Sorensen-Dice coefficient
/// and Levenshtein for breaking ties. May return `None` if the tie stays
/// unresolved. This consumes the input vector. See
/// [`fuzzy_match_with_algorithms`] for additional details.
///
/// The haystack must not be empty: an empty haystack is a caller programming
/// error, not a "no match" outcome, and is excluded by precondition.
pub fn fuzzy_match<'a, T>(needle: &str, haystack: Vec<(&'a str, T)>) -> (result: Option<T>)
    requires
        haystack@.len() > 0,
    ensures
        result == spec_fuzzy_match::<SorensenDice, Levenshtein, T>(needle@, haystack@),
{
    fuzzy_match_with_algorithms::<T, SorensenDice, Levenshtein>(needle, haystack)
}

/// Version of [`fuzzy_match`] which allows overriding the first and second
/// choice algorithms, instead of using Sorensen-Dice and Levenshtein
/// respectively. This consumes the input vector.
///
/// The secondary phase scans only the primary phase's winner set, with its
/// running maximum restarted from zero; only an outright single winner is
/// returned, and an unresolved tie yields `None`.
///
/// The haystack must not be empty: an empty haystack is a caller programming
/// error, not a "no match" outcome, and is excluded by precondition.
pub fn fuzzy_match_with_algorithms<'a, T, FST: SimilarityAlgorithm, SND: SimilarityAlgorithm>(
    needle: &str,
    haystack: Vec<(&'a str, T)>,
) -> (result: Option<T>)
    requires
        haystack@.len() > 0,
    ensures
        result == spec_fuzzy_match::<FST, SND, T>(needle@, haystack@),
{
    let ghost orig = haystack@;
    let mut highest_set = scan_phase::<FST, T>(needle, haystack);

    if highest_set.len() == 0 {
        proof {
            reveal(Seq::filter);
        }
        return None;
    } else if highest_set.len() == 1 {
        let (_, item) = highest_set.remove(0);
        return Some(item);
    }

    // Break ties with the second-choice algorithm, over the first winner set
    // only, with the running maximum restarted from zero.
    let mut snd_highest_set = scan_phase::<SND, T>(needle, highest_set);

    if snd_highest_set.len() == 1 {
        let (_, item) = snd_highest_set.remove(0);
        Some(item)
    } else {
        None
    }
}

} // verus!

