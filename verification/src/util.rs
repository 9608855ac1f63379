//! Shared scoring arithmetic: scores are ratios scaled to five decimal places.

use vstd::prelude::*;

verus! {

/// The scale factor for similarity scores: a score of `1.0` is `SCALE`.
pub const SCALE: u32 = 100000;

/// `num / den`, scaled by `SCALE` and rounded to the nearest integer
/// (halves round up). This is the mathematical meaning of "rounded to
/// five decimal places" for a ratio in `[0, 1]`.
pub open spec fn rounded_ratio(num: int, den: int) -> int
    recommends
        den > 0,
{
    (2 * (SCALE as int) * num + den) / (2 * den)
}

/// Rounding a ratio of at most one never leaves `[0, SCALE]`, a ratio of
/// exactly one rounds to `SCALE`, and a ratio of zero rounds to zero.
pub proof fn lemma_rounded_ratio_bounds(num: int, den: int)
    requires
        den > 0,
        0 <= num <= den,
    ensures
        0 <= rounded_ratio(num, den) <= SCALE,
        num == den ==> rounded_ratio(num, den) == SCALE,
        num == 0 ==> rounded_ratio(num, den) == 0,
{
    let s = SCALE as int;
    assert(2 * s * num + den <= (2 * den) * s + den) by (nonlinear_arith)
        requires
            num <= den,
            den > 0,
            s >= 0,
    ;
    assert(2 * s * num >= 0) by (nonlinear_arith)
        requires
            s >= 0,
            num >= 0,
    ;
    vstd::arithmetic::div_mod::lemma_div_multiples_vanish_fancy(s, den, 2 * den);
    vstd::arithmetic::div_mod::lemma_div_is_ordered(
        2 * s * num + den,
        (2 * den) * s + den,
        2 * den,
    );
    vstd::arithmetic::div_mod::lemma_div_pos_is_pos(2 * s * num + den, 2 * den);
    if num == den {
        assert(2 * s * num + den == (2 * den) * s + den) by (nonlinear_arith)
            requires
                num == den,
        ;
    }
    if num == 0 {
        vstd::arithmetic::div_mod::lemma_basic_div(den, 2 * den);
    }
}

/// The characters of a string, collected into a vector.
pub fn chars_of(s: &str) -> (r: Vec<char>)
    ensures
        r@ == s@,
{
    let mut r: Vec<char> = Vec::new();
    for c in it: s.chars()
        invariant
            it.seq() == s@,
            r@ == it.seq().take(it.index() as int),
    {
        proof {
            assert(it.seq().take(it.index() + 1) =~= it.seq().take(it.index() as int).push(
                it.seq()[it.index() as int],
            ));
        }
        r.push(c);
    }
    proof {
        assert(r@ =~= s@);
    }
    r
}

/// Whether two character vectors hold the same characters in the same order.
pub fn char_vecs_equal(a: &Vec<char>, b: &Vec<char>) -> (r: bool)
    ensures
        r == (a@ == b@),
{
    if a.len() != b.len() {
        return false;
    }
    let mut i: usize = 0;
    while i < a.len()
        invariant
            i <= a@.len(),
            a@.len() == b@.len(),
            forall|j: int| 0 <= j < i ==> a@[j] == b@[j],
        decreases a@.len() - i,
    {
        if a[i] != b[i] {
            return false;
        }
        i += 1;
    }
    proof {
        assert(a@ =~= b@);
    }
    true
}

/// Computes `rounded_ratio` on machine integers. Callers keep the ratio at
/// most one and the denominator small enough that the scaled numerator fits.
pub fn round_score(num: u128, den: u128) -> (r: u32)
    requires
        0 < den <= 0x1_0000_0000_0000_0000_0000u128,
        num <= den,
    ensures
        r as int == rounded_ratio(num as int, den as int),
        r <= SCALE,
{
    proof {
        lemma_rounded_ratio_bounds(num as int, den as int);
        assert(2 * (SCALE as int) * (num as int) <= 200000 * 0x1_0000_0000_0000_0000_0000)
            by (nonlinear_arith)
            requires
                0 <= num as int <= 0x1_0000_0000_0000_0000_0000,
                SCALE as int == 100000,
        ;
    }
    let r = (2 * (SCALE as u128) * num + den) / (2 * den);
    r as u32
}

} // verus!
