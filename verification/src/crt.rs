//! The Chinese remainder theorem for two coprime moduli.

use crate::bezout::{bezout_spec, lemma_bezout_spec};
use crate::congruence::{extend_spec, is_crt_solution, make_spec, Congruence};
use crate::coprimality::lemma_coprime_divisors_multiply;
use crate::divisibility::{
    coprime, lemma_congruent_iff_divides, lemma_divides_bound, lemma_gcd_unique, lemma_mod_of_mod,
    lemma_multiple_divides,
};
use vstd::arithmetic::div_mod::{lemma_mod_bound, lemma_mod_multiples_vanish, lemma_small_mod};
use vstd::prelude::*;

verus! {

/// Two integers in `[0, m0 * m1)` that agree modulo each of two coprime
/// moduli are equal.
pub proof fn lemma_crt_unique(m0: int, m1: int, x: int, y: int)
    requires
        m0 >= 1,
        m1 >= 1,
        coprime(m0, m1),
        0 <= x < m0 * m1,
        0 <= y < m0 * m1,
        x % m0 == y % m0,
        x % m1 == y % m1,
    ensures
        x == y,
{
    if x != y {
        let (hi, lo) = if x > y { (x, y) } else { (y, x) };
        lemma_congruent_iff_divides(hi, lo, m0);
        lemma_congruent_iff_divides(hi, lo, m1);
        lemma_coprime_divisors_multiply(m0, m1, hi - lo);
        lemma_divides_bound(m0 * m1, hi - lo);
    }
}

/// For coprime moduli, the class that `extend_spec` gives is valid and
/// agrees with `a` modulo `a.m` and with `r1` modulo `m1`.
pub proof fn lemma_extend_solves(a: Congruence, m1: int, r1: int)
    requires
        a.m >= 1,
        m1 >= 1,
        coprime(a.m, m1),
    ensures
        extend_spec(a, m1, r1).valid(),
        extend_spec(a, m1, r1).r % a.m == a.r % a.m,
        extend_spec(a, m1, r1).r % m1 == r1 % m1,
{
    let m0 = a.m;
    let r0 = a.r;
    lemma_bezout_spec(m0, m1);
    lemma_gcd_unique(1, m0, m1);
    let (u, v, c) = bezout_spec(m0, m1);
    let n = r1 * u * m0 + r0 * v * m1;
    let mm = m0 * m1;
    assert(mm >= 1) by (nonlinear_arith)
        requires
            m0 >= 1,
            m1 >= 1,
            mm == m0 * m1,
    ;
    lemma_mod_bound(n, mm);
    lemma_multiple_divides(m0, m1);
    lemma_multiple_divides(m1, m0);
    lemma_mod_of_mod(n, mm, m0);
    lemma_mod_of_mod(n, mm, m1);
    let k0 = u * (r1 - r0);
    assert(n == m0 * k0 + r0) by (nonlinear_arith)
        requires
            n == (r1 * u) * m0 + (r0 * v) * m1,
            u * m0 + v * m1 == 1,
            k0 == u * (r1 - r0),
    ;
    lemma_mod_multiples_vanish(k0, r0, m0);
    let k1 = v * (r0 - r1);
    assert(n == m1 * k1 + r1) by (nonlinear_arith)
        requires
            n == (r1 * u) * m0 + (r0 * v) * m1,
            u * m0 + v * m1 == 1,
            k1 == v * (r0 - r1),
    ;
    lemma_mod_multiples_vanish(k1, r1, m1);
}

/// The class of any integer modulo a positive modulus is valid, with its
/// residue in `[0, m)`, and holds of that integer.
pub proof fn lemma_make_canonical(n: int, m: int)
    requires
        m >= 1,
    ensures
        make_spec(n, m).valid(),
        0 <= make_spec(n, m).r < m,
        make_spec(n, m).holds_of(n),
{
    lemma_mod_bound(n, m);
}

/// The Chinese remainder theorem for a pair: for coprime moduli and
/// canonical residues, extending the class of `r0` modulo `m0` by `r1`
/// modulo `m1` gives a solution of both congruences in `[0, m0 * m1)`, and
/// that range holds no other.
pub proof fn lemma_pairwise_crt(m0: int, r0: int, m1: int, r1: int)
    requires
        m0 >= 1,
        m1 >= 1,
        coprime(m0, m1),
        0 <= r0 < m0,
        0 <= r1 < m1,
    ensures
        is_crt_solution(extend_spec(make_spec(r0, m0), m1, r1).r, m0, r0, m1, r1),
        forall|y: int| #[trigger]
            is_crt_solution(y, m0, r0, m1, r1) ==> y == extend_spec(make_spec(r0, m0), m1, r1).r,
{
    let a = make_spec(r0, m0);
    lemma_small_mod(r0 as nat, m0 as nat);
    lemma_small_mod(r1 as nat, m1 as nat);
    lemma_extend_solves(a, m1, r1);
    let x = extend_spec(a, m1, r1).r;
    assert forall|y: int| #[trigger] is_crt_solution(y, m0, r0, m1, r1) implies y == x by {
        lemma_crt_unique(m0, m1, x, y);
    }
}

} // verus!
