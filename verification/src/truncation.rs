//! Division rounded toward zero, as `BigInt` divides, set against
//! Euclidean division, the `/` and `%` of ghost code, whose remainder is
//! never negative.

use crate::integer::{big_add, big_rem, int_of, trunc_div, trunc_rem};
use num_bigint::BigInt;
use vstd::arithmetic::div_mod::{
    lemma_fundamental_div_mod, lemma_mod_bound, lemma_mod_multiples_vanish,
};
use vstd::prelude::*;

verus! {

/// The absolute value of an integer.
pub open spec fn abs(x: int) -> int {
    if x < 0 {
        -x
    } else {
        x
    }
}

/// Truncating division and its remainder split the dividend; the remainder
/// is smaller than the divisor in absolute value and never has the sign
/// opposite to the dividend's.
pub proof fn lemma_trunc_div_rem(a: int, b: int)
    requires
        b != 0,
    ensures
        a == b * trunc_div(a, b) + trunc_rem(a, b),
        abs(trunc_rem(a, b)) < abs(b),
        a >= 0 ==> trunc_rem(a, b) >= 0,
        a <= 0 ==> trunc_rem(a, b) <= 0,
{
    let q = abs(a) / abs(b);
    lemma_fundamental_div_mod(abs(a), abs(b));
    lemma_mod_bound(abs(a), abs(b));
    assert(b * (-q) == -(b * q)) by (nonlinear_arith);
    assert((-b) * q == -(b * q)) by (nonlinear_arith);
}

/// On a non-negative dividend and a positive divisor, truncating division is
/// Euclidean division.
pub proof fn lemma_trunc_nonnegative(a: int, b: int)
    requires
        a >= 0,
        b > 0,
    ensures
        trunc_div(a, b) == a / b,
        trunc_rem(a, b) == a % b,
{
}

/// The truncating remainder is congruent to the dividend: for a positive
/// divisor, reducing it once more gives the canonical residue.
pub proof fn lemma_trunc_rem_residue(a: int, m: int)
    requires
        m > 0,
    ensures
        trunc_rem(a, m) % m == a % m,
        (trunc_rem(a, m) + m) % m == a % m,
        trunc_rem(trunc_rem(a, m) + m, m) == a % m,
{
    let t = trunc_rem(a, m);
    lemma_trunc_div_rem(a, m);
    lemma_mod_multiples_vanish(trunc_div(a, m), t, m);
    lemma_mod_multiples_vanish(1, t, m);
    lemma_trunc_nonnegative(t + m, m);
}

/// The canonical residue of `x` modulo `m`: the double reduction
/// `((x rem m) + m) rem m`, which for a positive `m` lies in `[0, m)` also
/// when `x` is negative.
pub(crate) fn into_mod(x: &BigInt, m: &BigInt) -> (r: BigInt)
    requires
        int_of(*m) > 0,
    ensures
        int_of(r) == int_of(*x) % int_of(*m),
        0 <= int_of(r) < int_of(*m),
{
    let t = big_rem(x, m);
    let s = big_add(&t, m);
    let r = big_rem(&s, m);
    proof {
        lemma_trunc_rem_residue(int_of(*x), int_of(*m));
        lemma_mod_bound(int_of(*x), int_of(*m));
    }
    r
}

} // verus!
