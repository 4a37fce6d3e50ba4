//! Rounding of non-negative fractions to integers.

use vstd::prelude::*;
use vstd::arithmetic::div_mod::{lemma_div_denominator, lemma_hoist_over_denominator};

verus! {

/// The integer nearest to `num / den`, a fraction exactly half way between two
/// integers going to the larger one. Meant for `num >= 0` and `den > 0`.
pub open spec fn round_half_up(num: int, den: int) -> int {
    (2 * num + den) / (2 * den)
}

/// The integer nearest to `num / den`, a fraction exactly half way between two
/// integers going to the even one. Meant for `num >= 0` and `den > 0`.
pub open spec fn round_half_even(num: int, den: int) -> int {
    let q = num / den;
    let r = num % den;
    if 2 * r > den || (2 * r == den && q % 2 == 1) {
        q + 1
    } else {
        q
    }
}

/// A fraction whose denominator is the product `pow * den` can be rounded
/// half up by dividing by `den` first and by `pow` afterwards.
pub proof fn lemma_round_half_up_shifted(num: int, den: int, pow: int)
    requires
        num >= 0,
        den > 0,
        pow > 0,
    ensures
        round_half_up(num, pow * den) == ((2 * num) / den / pow + 1) / 2,
{
    let a = 2 * num;
    let q = a / den;
    // (a + pow * den) / den == q + pow
    lemma_hoist_over_denominator(a, pow, den as nat);
    assert((a + pow * den) / den == q + pow);
    // (q + pow) / pow == q / pow + 1
    lemma_hoist_over_denominator(q, 1, pow as nat);
    assert((q + 1 * pow) / pow == q / pow + 1);
    // join the three divisions into one
    lemma_div_denominator(a + pow * den, den, pow);
    assert((a + pow * den) / (den * pow) == (q + pow) / pow);
    assert(den * pow > 0) by (nonlinear_arith)
        requires
            den > 0,
            pow > 0,
    ;
    lemma_div_denominator(a + pow * den, den * pow, 2);
    assert((a + pow * den) / (den * pow * 2) == (q / pow + 1) / 2);
    assert(den * pow * 2 == 2 * (pow * den)) by (nonlinear_arith);
}

} // verus!
