//! Integer percentages.

use vstd::prelude::*;

verus! {

/// `numerator` as a percentage of `denominator`, rounded down; zero when the
/// denominator is zero.
pub open spec fn percentage_of(numerator: nat, denominator: nat) -> nat {
    if denominator != 0 {
        numerator * 100 / denominator
    } else {
        0
    }
}

/// Whether the percentage fits the machine's integers.
pub fn percentage_fits(numerator: u64, denominator: u64) -> (fits: bool)
    ensures
        fits == (percentage_of(numerator as nat, denominator as nat) <= u64::MAX),
{
    let limit: u128 = 0xffff_ffff_ffff_ffff;
    denominator == 0 || (numerator as u128 * 100) / (denominator as u128) <= limit
}

/// Computes `numerator * 100 / denominator` with floor division, and `0` for a
/// zero denominator.  The product is taken in wider integers, so only the
/// result has to fit.
pub fn percentage(numerator: u64, denominator: u64) -> (percent: u64)
    requires
        percentage_of(numerator as nat, denominator as nat) <= u64::MAX,
    ensures
        percent == percentage_of(numerator as nat, denominator as nat),
{
    if denominator != 0 {
        ((numerator as u128 * 100) / (denominator as u128)) as u64
    } else {
        0
    }
}

/// A zero denominator gives zero, whatever the numerator.
pub proof fn lemma_percentage_zero_denominator(numerator: nat)
    ensures
        percentage_of(numerator, 0) == 0,
{
}

/// Nothing out of something is zero percent.
pub proof fn lemma_percentage_zero_numerator(denominator: nat)
    requires
        denominator > 0,
    ensures
        percentage_of(0, denominator) == 0,
{
}

/// A positive quantity is one hundred percent of itself.
pub proof fn lemma_percentage_of_itself(n: nat)
    requires
        n > 0,
    ensures
        percentage_of(n, n) == 100,
{
    assert(n * 100 / n == 100) by (nonlinear_arith)
        requires
            n > 0,
    ;
}

/// A part never exceeds one hundred percent of the whole.
pub proof fn lemma_percentage_of_part(part: nat, whole: nat)
    requires
        part <= whole,
    ensures
        percentage_of(part, whole) <= 100,
{
    if whole != 0 {
        assert(part * 100 / whole <= 100) by (nonlinear_arith)
            requires
                part <= whole,
                whole > 0,
        ;
    }
}

/// The percentage grows with the numerator.
pub proof fn lemma_percentage_monotonic(a: nat, b: nat, denominator: nat)
    requires
        a <= b,
    ensures
        percentage_of(a, denominator) <= percentage_of(b, denominator),
{
    if denominator != 0 {
        assert(a * 100 / denominator <= b * 100 / denominator) by (nonlinear_arith)
            requires
                a <= b,
                denominator > 0,
        ;
    }
}

} // verus!
