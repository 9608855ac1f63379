//! The raw algorithms used for string similarity. These can be used directly
//! if raw weights are required between two strings, but most users should
//! prefer the functionality in the crate root.

use vstd::prelude::*;
use vstd::seq_lib::*;
use sliding_windows::IterExt;
use crate::util::{SCALE, rounded_ratio, lemma_rounded_ratio_bounds, chars_of, char_vecs_equal,
    round_score};

verus! {

/// The reusable scratch buffer of `sliding_windows`, held by `SorensenDice`
/// across calls so bigram extraction does not reallocate.
#[verifier::external_type_specification]
#[verifier::external_body]
#[verifier::reject_recursive_types(T)]
pub struct ExStorage<T>(sliding_windows::Storage<T>);

/// The window size a `sliding_windows::Storage` was created with.
pub uninterp spec fn storage_window_size(storage: sliding_windows::Storage<char>) -> nat;

/// Relies on `sliding_windows::Storage::new`: it creates a scratch buffer for
/// windows of the given size.
#[verifier::external_body]
fn new_storage(window_size: usize) -> (storage: sliding_windows::Storage<char>)
    ensures
        storage_window_size(storage) == window_size,
{
    sliding_windows::Storage::new(window_size)
}

/// Relies on `sliding_windows::IterExt::sliding_windows` over `str::chars`:
/// with a storage of window size two and at least two characters of input, it
/// yields every adjacent pair of characters, in order, each window full.
/// Iteration leaves the storage's internal cursor wherever it stopped, and a
/// stale cursor would rotate the next run's windows; so the body first
/// rebuilds the storage with a fresh cursor, keeping its allocation, through
/// the crate's own `Storage::from_vec` and its `Into<Vec>` impl.
/// The crate panics only when a yielded window outlives one iteration step,
/// which this body never allows.
#[verifier::external_body]
fn char_windows(s: &str, storage: &mut sliding_windows::Storage<char>) -> (r: Vec<(char, char)>)
    requires
        storage_window_size(*old(storage)) == 2,
        s@.len() >= 2,
    ensures
        storage_window_size(*final(storage)) == 2,
        r@.len() == s@.len() - 1,
        forall|i: int| 0 <= i < r@.len() ==> r@[i] == (s@[i], s@[i + 1]),
    no_unwind
{
    let buffer: Vec<char> = std::mem::replace(storage, sliding_windows::Storage::new(0)).into();
    *storage = sliding_windows::Storage::from_vec(buffer, 2);
    s.chars()
        .sliding_windows(storage)
        .map(|w| {
            let mut it = w.iter();
            let a = *it.next().unwrap();
            let b = *it.next().unwrap();
            (a, b)
        })
        .collect()
}

/// The bigrams drawn from the first `k` windows of `s`: the pairs
/// `(s[i], s[i+1])` for `i < k`, those containing a space discarded.
pub open spec fn bigrams_upto(s: Seq<char>, k: int) -> Set<(char, char)>
    decreases k,
{
    if k <= 0 {
        Set::empty()
    } else {
        let rest = bigrams_upto(s, k - 1);
        let p = (s[k - 1], s[k]);
        if p.0 != ' ' && p.1 != ' ' {
            rest.insert(p)
        } else {
            rest
        }
    }
}

/// The bigram set of a string: its adjacent character pairs, those containing
/// a space discarded. A string of fewer than two characters has no bigrams.
pub open spec fn spec_bigrams(s: Seq<char>) -> Set<(char, char)> {
    bigrams_upto(s, s.len() - 1)
}

/// Bigram sets are finite.
pub proof fn lemma_bigrams_finite(s: Seq<char>, k: int)
    ensures
        bigrams_upto(s, k).finite(),
    decreases k,
{
    if k > 0 {
        lemma_bigrams_finite(s, k - 1);
    }
}

/// No bigram contains a space: pairs with a space are excluded entirely.
pub proof fn lemma_bigrams_exclude_space(s: Seq<char>, p: (char, char))
    requires
        spec_bigrams(s).contains(p),
    ensures
        p.0 != ' ',
        p.1 != ' ',
{
    lemma_bigrams_upto_exclude_space(s, s.len() - 1, p);
}

proof fn lemma_bigrams_upto_exclude_space(s: Seq<char>, k: int, p: (char, char))
    requires
        bigrams_upto(s, k).contains(p),
    ensures
        p.0 != ' ',
        p.1 != ' ',
    decreases k,
{
    if k > 0 && bigrams_upto(s, k - 1).contains(p) {
        lemma_bigrams_upto_exclude_space(s, k - 1, p);
    }
}

/// A string of fewer than two characters has an empty bigram set.
pub proof fn lemma_bigrams_short_empty(s: Seq<char>)
    requires
        s.len() < 2,
    ensures
        spec_bigrams(s) == Set::<(char, char)>::empty(),
{
}

/// Trait defining a single similarity algorithm.
pub trait SimilarityAlgorithm: Sized {
    /// The score this algorithm assigns to a pair of strings, scaled by
    /// `SCALE` so that identical strings score `SCALE` (that is, `1.0`).
    spec fn spec_similarity(a: Seq<char>, b: Seq<char>) -> int;

    /// What every algorithm promises of its scores: they lie in `[0, SCALE]`;
    /// identical strings score exactly `SCALE`; unequal single-character
    /// strings score exactly `0`; and a comparison involving an empty string
    /// (two empty strings being identical instead) scores exactly `0`.
    proof fn lemma_similarity_contract(a: Seq<char>, b: Seq<char>)
        ensures
            0 <= Self::spec_similarity(a, b) <= SCALE,
            a == b ==> Self::spec_similarity(a, b) == SCALE,
            a != b && a.len() == 1 && b.len() == 1 ==> Self::spec_similarity(a, b) == 0,
            a != b && (a.len() == 0 || b.len() == 0) ==> Self::spec_similarity(a, b) == 0,
    ;

    /// Create a new instance of this algorithm. It's recommended to keep a
    /// single instance around as long as possible, as this allows any
    /// temporary storage to be recycled without additional allocations.
    fn new() -> Self;

    /// Gets the similarity of a given pair of strings using this algorithm.
    fn get_similarity(&mut self, a: &str, b: &str) -> (r: u32)
        ensures
            r as int == Self::spec_similarity(a@, b@),
    ;
}

/// The Sorensen-Dice score of two strings: twice the size of the bigram
/// intersection over the sum of the bigram set sizes, rounded to five
/// decimals, with fixed fast paths for identical, single-character and
/// empty inputs. If either bigram set is empty the score is zero.
pub open spec fn spec_sorensen(a: Seq<char>, b: Seq<char>) -> int {
    if a == b {
        SCALE as int
    } else if a.len() == 1 && b.len() == 1 {
        0
    } else if a.len() == 0 || b.len() == 0 {
        0
    } else {
        let sa = spec_bigrams(a);
        let sb = spec_bigrams(b);
        if sa.len() + sb.len() == 0 {
            0
        } else {
            rounded_ratio((2 * sa.intersect(sb).len()) as int, (sa.len() + sb.len()) as int)
        }
    }
}

/// The Sorensen-Dice score meets the contract every similarity algorithm
/// promises (see `SimilarityAlgorithm::lemma_similarity_contract`).
pub proof fn lemma_sorensen_contract(a: Seq<char>, b: Seq<char>)
    ensures
        0 <= spec_sorensen(a, b) <= SCALE,
        a == b ==> spec_sorensen(a, b) == SCALE,
        a != b && a.len() == 1 && b.len() == 1 ==> spec_sorensen(a, b) == 0,
        a != b && (a.len() == 0 || b.len() == 0) ==> spec_sorensen(a, b) == 0,
{
    if a != b && !(a.len() == 1 && b.len() == 1) && a.len() != 0 && b.len() != 0 {
        let sa = spec_bigrams(a);
        let sb = spec_bigrams(b);
        if sa.len() + sb.len() != 0 {
            lemma_bigrams_finite(a, a.len() - 1);
            lemma_bigrams_finite(b, b.len() - 1);
            vstd::set_lib::lemma_len_intersect(sa, sb);
            assert(sa.intersect(sb) =~= sb.intersect(sa));
            vstd::set_lib::lemma_len_intersect(sb, sa);
            lemma_rounded_ratio_bounds(
                (2 * sa.intersect(sb).len()) as int,
                (sa.len() + sb.len()) as int,
            );
        }
    }
}

/// The Sorensen-Dice score does not depend on the order of its arguments.
pub proof fn lemma_sorensen_symmetric(a: Seq<char>, b: Seq<char>)
    ensures
        spec_sorensen(a, b) == spec_sorensen(b, a),
{
    assert(spec_bigrams(a).intersect(spec_bigrams(b)) =~= spec_bigrams(b).intersect(
        spec_bigrams(a),
    ));
}

/// Sorensen-Dice coefficient algorithm.
pub struct SorensenDice {
    storage: sliding_windows::Storage<char>,
}

impl SorensenDice {
    #[verifier::type_invariant]
    spec fn wf(self) -> bool {
        storage_window_size(self.storage) == 2
    }

    /// The bigrams of `s` as a vector without duplicates: a bigram set.
    pub fn str_to_char_set(&mut self, s: &str) -> (r: Vec<(char, char)>)
        ensures
            r@.no_duplicates(),
            r@.to_set() == spec_bigrams(s@),
            r@.len() == spec_bigrams(s@).len(),
    {
        let sv = chars_of(s);
        if sv.len() < 2 {
            let r: Vec<(char, char)> = Vec::new();
            proof {
                assert(r@.to_set() =~= spec_bigrams(s@));
                r@.unique_seq_to_set();
            }
            return r;
        }
        proof {
            use_type_invariant(&*self);
        }
        let ws = char_windows(s, &mut self.storage);
        let mut out: Vec<(char, char)> = Vec::new();
        let mut i: usize = 0;
        while i < ws.len()
            invariant
                ws@.len() == s@.len() - 1,
                forall|j: int| 0 <= j < ws@.len() ==> ws@[j] == (s@[j], s@[j + 1]),
                i <= ws@.len(),
                out@.no_duplicates(),
                out@.to_set() == bigrams_upto(s@, i as int),
            decreases ws@.len() - i,
        {
            let p = ws[i];
            let ghost pre = out@;
            if p.0 != ' ' && p.1 != ' ' {
                if !contains_pair(&out, p) {
                    proof {
                        lemma_push_no_duplicates(out@, p);
                        broadcast use vstd::prelude::Seq::lemma_push_to_set_commute;

                    }
                    out.push(p);
                } else {
                    proof {
                        assert(bigrams_upto(s@, i + 1) =~= bigrams_upto(s@, i as int));
                    }
                }
            }
            i += 1;
        }
        proof {
            out@.unique_seq_to_set();
        }
        out
    }
}

impl SimilarityAlgorithm for SorensenDice {
    open spec fn spec_similarity(a: Seq<char>, b: Seq<char>) -> int {
        spec_sorensen(a, b)
    }

    proof fn lemma_similarity_contract(a: Seq<char>, b: Seq<char>) {
        lemma_sorensen_contract(a, b);
    }

    fn new() -> SorensenDice {
        SorensenDice { storage: new_storage(2) }
    }

    fn get_similarity(&mut self, a: &str, b: &str) -> (r: u32) {
        let av = chars_of(a);
        let bv = chars_of(b);
        if char_vecs_equal(&av, &bv) {
            SCALE
        } else if av.len() == 1 && bv.len() == 1 {
            0
        } else if av.len() == 0 || bv.len() == 0 {
            0
        } else {
            let aset = self.str_to_char_set(a);
            let bset = self.str_to_char_set(b);
            let inter = intersection_count(&aset, &bset);
            let total: u128 = aset.len() as u128 + bset.len() as u128;
            if total == 0 {
                0
            } else {
                proof {
                    let sa = spec_bigrams(a@);
                    let sb = spec_bigrams(b@);
                    lemma_bigrams_finite(a@, a@.len() - 1);
                    lemma_bigrams_finite(b@, b@.len() - 1);
                    vstd::set_lib::lemma_len_intersect(sa, sb);
                    assert(sa.intersect(sb) =~= sb.intersect(sa));
                    vstd::set_lib::lemma_len_intersect(sb, sa);
                }
                round_score(2 * (inter as u128), total)
            }
        }
    }
}

/// Pushing a fresh element keeps a sequence free of duplicates.
proof fn lemma_push_no_duplicates<A>(s: Seq<A>, x: A)
    requires
        s.no_duplicates(),
        !s.contains(x),
    ensures
        s.push(x).no_duplicates(),
{
    let t = s.push(x);
    assert forall|i: int, j: int| 0 <= i < t.len() && 0 <= j < t.len() && i != j implies t[i]
        != t[j] by {
        if i < s.len() && j < s.len() {
        } else if i == s.len() {
            assert(s.contains(s[j]));
        } else {
            assert(s.contains(s[i]));
        }
    }
}

/// Whether `v` holds the pair `p`.
fn contains_pair(v: &Vec<(char, char)>, p: (char, char)) -> (r: bool)
    ensures
        r == v@.contains(p),
{
    let mut i: usize = 0;
    while i < v.len()
        invariant
            i <= v@.len(),
            forall|j: int| 0 <= j < i ==> v@[j] != p,
        decreases v@.len() - i,
    {
        let q = v[i];
        if q.0 == p.0 && q.1 == p.1 {
            proof {
                assert(v@[i as int] == p);
            }
            return true;
        }
        i += 1;
    }
    proof {
        assert(!v@.contains(p)) by {
            if v@.contains(p) {
                let j = choose|j: int| 0 <= j < v@.len() && v@[j] == p;
            }
        }
    }
    false
}

/// How many elements of `a`, a vector without duplicates, also stand in `b`:
/// the size of the intersection of the two sets.
fn intersection_count(a: &Vec<(char, char)>, b: &Vec<(char, char)>) -> (n: usize)
    requires
        a@.no_duplicates(),
    ensures
        n == a@.to_set().intersect(b@.to_set()).len(),
{
    let mut n: usize = 0;
    let mut i: usize = 0;
    proof {
        assert(a@.take(0).to_set().intersect(b@.to_set()) =~= Set::<(char, char)>::empty());
    }
    while i < a.len()
        invariant
            a@.no_duplicates(),
            i <= a@.len(),
            n <= i,
            n == a@.take(i as int).to_set().intersect(b@.to_set()).len(),
        decreases a@.len() - i,
    {
        let p = a[i];
        proof {
            broadcast use vstd::prelude::Seq::lemma_push_to_set_commute, vstd::seq_lib::seq_to_set_is_finite;

            assert(a@.take(i + 1) =~= a@.take(i as int).push(a@[i as int]));
            assert(!a@.take(i as int).contains(p)) by {
                if a@.take(i as int).contains(p) {
                    let j = choose|j: int| 0 <= j < i && a@.take(i as int)[j] == p;
                    assert(a@[j] == a@[i as int]);
                }
            }
        }
        if contains_pair(b, p) {
            proof {
                let pre = a@.take(i as int).to_set();
                let bs = b@.to_set();
                assert(pre.insert(p).intersect(bs) =~= pre.intersect(bs).insert(p));
                assert(!pre.intersect(bs).contains(p));
                vstd::set_lib::lemma_len_intersect(pre, bs);
            }
            n += 1;
        } else {
            proof {
                let pre = a@.take(i as int).to_set();
                let bs = b@.to_set();
                assert(pre.insert(p).intersect(bs) =~= pre.intersect(bs));
            }
        }
        i += 1;
    }
    proof {
        assert(a@.take(a@.len() as int) =~= a@);
    }
    n
}

/// The Levenshtein edit distance between two character sequences: the least
/// number of single-character insertions, deletions and substitutions (each
/// of cost one) that turns one into the other.
pub open spec fn spec_lev_dist(a: Seq<char>, b: Seq<char>) -> int
    decreases a.len(), b.len(),
{
    if a.len() == 0 {
        b.len() as int
    } else if b.len() == 0 {
        a.len() as int
    } else {
        let cost: int = if a.last() == b.last() {
            0
        } else {
            1
        };
        let del = spec_lev_dist(a.drop_last(), b) + 1;
        let ins = spec_lev_dist(a, b.drop_last()) + 1;
        let sub = spec_lev_dist(a.drop_last(), b.drop_last()) + cost;
        if del <= ins && del <= sub {
            del
        } else if ins <= sub {
            ins
        } else {
            sub
        }
    }
}

/// The edit distance is never negative and never exceeds the longer length.
pub proof fn lemma_lev_dist_bounds(a: Seq<char>, b: Seq<char>)
    ensures
        0 <= spec_lev_dist(a, b),
        spec_lev_dist(a, b) <= if a.len() >= b.len() {
            a.len() as int
        } else {
            b.len() as int
        },
    decreases a.len(), b.len(),
{
    if a.len() != 0 && b.len() != 0 {
        lemma_lev_dist_bounds(a.drop_last(), b);
        lemma_lev_dist_bounds(a, b.drop_last());
        lemma_lev_dist_bounds(a.drop_last(), b.drop_last());
    }
}

/// The edit distance does not depend on the order of its arguments.
pub proof fn lemma_lev_dist_symmetric(a: Seq<char>, b: Seq<char>)
    ensures
        spec_lev_dist(a, b) == spec_lev_dist(b, a),
    decreases a.len(), b.len(),
{
    if a.len() != 0 && b.len() != 0 {
        lemma_lev_dist_symmetric(a.drop_last(), b);
        lemma_lev_dist_symmetric(a, b.drop_last());
        lemma_lev_dist_symmetric(a.drop_last(), b.drop_last());
    }
}

/// The edit distance of two prefixes follows the dynamic-programming
/// recurrence over the prefixes one shorter.
pub proof fn lemma_lev_dist_step(a: Seq<char>, b: Seq<char>, i: int, j: int)
    requires
        1 <= i <= a.len(),
        1 <= j <= b.len(),
    ensures
        spec_lev_dist(a.take(i), b.take(j)) == ({
            let cost: int = if a[i - 1] == b[j - 1] {
                0
            } else {
                1
            };
            let del = spec_lev_dist(a.take(i - 1), b.take(j)) + 1;
            let ins = spec_lev_dist(a.take(i), b.take(j - 1)) + 1;
            let sub = spec_lev_dist(a.take(i - 1), b.take(j - 1)) + cost;
            if del <= ins && del <= sub {
                del
            } else if ins <= sub {
                ins
            } else {
                sub
            }
        }),
{
    assert(a.take(i).drop_last() =~= a.take(i - 1));
    assert(b.take(j).drop_last() =~= b.take(j - 1));
    assert(a.take(i).last() == a[i - 1]);
    assert(b.take(j).last() == b[j - 1]);
}

/// The Levenshtein score of two strings: one minus the edit distance over the
/// longer length, rounded to five decimals, with the same fast paths as the
/// Sorensen-Dice score. Scores thus depend on the longer of the two lengths:
/// two strings one edit apart are judged more similar the longer they are.
pub open spec fn spec_levenshtein(a: Seq<char>, b: Seq<char>) -> int {
    if a == b {
        SCALE as int
    } else if a.len() == 1 && b.len() == 1 {
        0
    } else if a.len() == 0 || b.len() == 0 {
        0
    } else {
        let ml: int = if a.len() >= b.len() {
            a.len() as int
        } else {
            b.len() as int
        };
        rounded_ratio(ml - spec_lev_dist(a, b), ml)
    }
}

/// The Levenshtein score meets the contract every similarity algorithm
/// promises (see `SimilarityAlgorithm::lemma_similarity_contract`).
pub proof fn lemma_levenshtein_contract(a: Seq<char>, b: Seq<char>)
    ensures
        0 <= spec_levenshtein(a, b) <= SCALE,
        a == b ==> spec_levenshtein(a, b) == SCALE,
        a != b && a.len() == 1 && b.len() == 1 ==> spec_levenshtein(a, b) == 0,
        a != b && (a.len() == 0 || b.len() == 0) ==> spec_levenshtein(a, b) == 0,
{
    if a != b && !(a.len() == 1 && b.len() == 1) && a.len() != 0 && b.len() != 0 {
        let ml: int = if a.len() >= b.len() {
            a.len() as int
        } else {
            b.len() as int
        };
        lemma_lev_dist_bounds(a, b);
        lemma_rounded_ratio_bounds(ml - spec_lev_dist(a, b), ml);
    }
}

/// The Levenshtein score does not depend on the order of its arguments.
pub proof fn lemma_levenshtein_symmetric(a: Seq<char>, b: Seq<char>)
    ensures
        spec_levenshtein(a, b) == spec_levenshtein(b, a),
{
    lemma_lev_dist_symmetric(a, b);
}

/// Levenshtein edit distance algorithm.
// The hidden, unused field prevents direct construction.
pub struct Levenshtein(bool);

impl SimilarityAlgorithm for Levenshtein {
    open spec fn spec_similarity(a: Seq<char>, b: Seq<char>) -> int {
        spec_levenshtein(a, b)
    }

    proof fn lemma_similarity_contract(a: Seq<char>, b: Seq<char>) {
        lemma_levenshtein_contract(a, b);
    }

    fn new() -> Levenshtein {
        Levenshtein(false)
    }

    fn get_similarity(&mut self, s: &str, t: &str) -> (r: u32) {
        let sv = chars_of(s);
        let tv = chars_of(t);
        let n = sv.len();
        let m = tv.len();
        if char_vecs_equal(&sv, &tv) {
            SCALE
        } else if n == 1 && m == 1 {
            0
        } else if n == 0 || m == 0 {
            0
        } else {
            // Build the (n + 1) x (m + 1) table of edit distances between the
            // prefixes of the two strings, row by row.
            let mut rows: Vec<Vec<usize>> = Vec::new();
            let mut row0: Vec<usize> = Vec::new();
            while row0.len() <= m
                invariant
                    row0@.len() <= m + 1,
                    forall|y: int| 0 <= y < row0@.len() ==> row0@[y] == y,
                decreases m + 1 - row0@.len(),
            {
                let j = row0.len();
                row0.push(j);
            }
            proof {
                assert forall|y: int| 0 <= y <= m implies spec_lev_dist(
                    sv@.take(0),
                    tv@.take(y),
                ) == y by {
                    assert(sv@.take(0).len() == 0);
                    assert(tv@.take(y).len() == y);
                }
            }
            rows.push(row0);
            while rows.len() <= n
                invariant
                    1 <= n == sv@.len() <= sv@.len(),
                    1 <= m == tv@.len() <= tv@.len(),
                    1 <= rows@.len() <= n + 1,
                    forall|x: int| 0 <= x < rows@.len() ==> #[trigger] rows@[x]@.len() == m + 1,
                    forall|x: int, y: int|
                        0 <= x < rows@.len() && 0 <= y <= m ==> #[trigger] rows@[x]@[y]
                            == spec_lev_dist(sv@.take(x), tv@.take(y)),
                decreases n + 1 - rows@.len(),
            {
                let i = rows.len();
                let mut row: Vec<usize> = Vec::new();
                row.push(i);
                proof {
                    assert(sv@.take(i as int).len() == i);
                    assert(tv@.take(0).len() == 0);
                    assert(spec_lev_dist(sv@.take(i as int), tv@.take(0)) == i);
                }
                while row.len() <= m
                    invariant
                        1 <= n == sv@.len() <= sv@.len(),
                        1 <= m == tv@.len() <= tv@.len(),
                        1 <= i == rows@.len() <= n,
                        forall|x: int| 0 <= x < rows@.len() ==> #[trigger] rows@[x]@.len() == m
                            + 1,
                        forall|x: int, y: int|
                            0 <= x < rows@.len() && 0 <= y <= m ==> #[trigger] rows@[x]@[y]
                                == spec_lev_dist(sv@.take(x), tv@.take(y)),
                        1 <= row@.len() <= m + 1,
                        forall|y: int|
                            0 <= y < row@.len() ==> #[trigger] row@[y] == spec_lev_dist(
                                sv@.take(i as int),
                                tv@.take(y),
                            ),
                    decreases m + 1 - row@.len(),
                {
                    let j = row.len();
                    let cost: usize = if sv[i - 1] == tv[j - 1] {
                        0
                    } else {
                        1
                    };
                    let above = rows[i - 1][j];
                    let left = row[j - 1];
                    let diag = rows[i - 1][j - 1];
                    proof {
                        lemma_lev_dist_bounds(sv@.take(i - 1), tv@.take(j - 1));
                        lemma_lev_dist_step(sv@, tv@, i as int, j as int);
                    }
                    let mut best = diag + cost;
                    if above < best {
                        best = above + 1;
                    }
                    if left < best {
                        best = left + 1;
                    }
                    row.push(best);
                }
                rows.push(row);
            }
            let d = rows[n][m];
            let ml = if n > m {
                n
            } else {
                m
            };
            proof {
                assert(sv@.take(n as int) =~= sv@);
                assert(tv@.take(m as int) =~= tv@);
                lemma_lev_dist_bounds(sv@, tv@);
            }
            round_score((ml - d) as u128, ml as u128)
        }
    }
}

} // verus!
