//! What follows from the fact that the greatest common divisor of two
//! integers is an integer combination of them.

use crate::bezout::{bezout_spec, lemma_bezout_spec};
use crate::divisibility::{
    coprime, divides, gcd, is_common_divisor, is_common_multiple, is_gcd, is_lcm, lcm,
    lemma_cofactor, lemma_divides_bound, lemma_divides_combination,
    lemma_divides_quotient, lemma_divides_scale, lemma_gcd_unique, lemma_is_gcd_symmetric,
    lemma_multiple_divides,
};
use vstd::prelude::*;

verus! {

/// Two integers that are not both zero have a greatest common divisor, and
/// it is an integer combination of them: the returned pair holds the
/// coefficients.
pub proof fn lemma_gcd_combination(a: int, b: int) -> (uv: (int, int))
    requires
        a != 0 || b != 0,
    ensures
        is_gcd(gcd(a, b), a, b),
        gcd(a, b) >= 1,
        uv.0 * a + uv.1 * b == gcd(a, b),
{
    lemma_bezout_spec(a, b);
    let (u, v, c) = bezout_spec(a, b);
    if c < 0 {
        assert((-u) * a + (-v) * b == -c) by (nonlinear_arith)
            requires
                u * a + v * b == c,
        ;
        (-u, -v)
    } else {
        (u, v)
    }
}

/// The greatest common divisor does not depend on the order of the two
/// numbers.
pub proof fn lemma_gcd_symmetric(a: int, b: int)
    ensures
        gcd(a, b) == gcd(b, a),
{
    if a != 0 || b != 0 {
        lemma_gcd_combination(a, b);
        lemma_is_gcd_symmetric(gcd(a, b), a, b);
        lemma_gcd_unique(gcd(a, b), b, a);
    }
}

/// Every common divisor divides the greatest one.
pub proof fn lemma_common_divisor_divides_gcd(d: int, a: int, b: int)
    requires
        is_common_divisor(d, a, b),
        a != 0 || b != 0,
    ensures
        divides(d, gcd(a, b)),
{
    let (u, v) = lemma_gcd_combination(a, b);
    lemma_divides_combination(d, a, b, u, v);
}

/// Two integers of which some combination is 1 are coprime.
pub proof fn lemma_combination_coprime(a: int, b: int, u: int, v: int)
    requires
        u * a + v * b == 1,
    ensures
        coprime(a, b),
        gcd(a, b) == 1,
{
    assert(a % 1 == 0 && b % 1 == 0);
    assert forall|d: int| #[trigger] is_common_divisor(d, a, b) implies d <= 1 by {
        lemma_divides_combination(d, a, b, u, v);
        lemma_divides_bound(d, 1);
    }
    lemma_gcd_unique(1, a, b);
}

/// Of two coprime integers some combination is 1: the returned pair holds
/// the coefficients.
pub proof fn lemma_coprime_combination(a: int, b: int) -> (uv: (int, int))
    requires
        coprime(a, b),
    ensures
        uv.0 * a + uv.1 * b == 1,
        gcd(a, b) == 1,
{
    lemma_gcd_unique(1, a, b);
    lemma_gcd_combination(a, b)
}

/// Two integers are coprime exactly when their greatest common divisor is 1.
pub proof fn lemma_coprime_iff_gcd_one(a: int, b: int)
    ensures
        coprime(a, b) <==> gcd(a, b) == 1,
{
    if coprime(a, b) {
        lemma_gcd_unique(1, a, b);
    }
    if gcd(a, b) == 1 {
        lemma_gcd_combination(a, b);
    }
}

/// Coprimality does not depend on the order of the two numbers.
pub proof fn lemma_coprime_symmetric(a: int, b: int)
    requires
        coprime(a, b),
    ensures
        coprime(b, a),
{
    lemma_is_gcd_symmetric(1, a, b);
}

/// A positive integer that divides a product and is coprime to one factor
/// divides the other factor.
pub proof fn lemma_coprime_divides_factor(a: int, b: int, c: int)
    requires
        coprime(a, b),
        divides(a, b * c),
    ensures
        divides(a, c),
{
    let (u, v) = lemma_coprime_combination(a, b);
    lemma_multiple_divides(a, c);
    lemma_divides_combination(a, a * c, b * c, u, v);
    assert(u * (a * c) + v * (b * c) == c) by (nonlinear_arith)
        requires
            u * a + v * b == 1,
    ;
}

/// A product of two integers that are each coprime to a third is coprime to
/// it.
pub proof fn lemma_coprime_product(a: int, b: int, c: int)
    requires
        coprime(a, c),
        coprime(b, c),
    ensures
        coprime(a * b, c),
{
    let (u1, v1) = lemma_coprime_combination(a, c);
    let (u2, v2) = lemma_coprime_combination(b, c);
    let w = u2 * b;
    let u = u1 * u2;
    let v = w * v1 + v2;
    assert(w * (u1 * a + v1 * c) == w) by (nonlinear_arith)
        requires
            u1 * a + v1 * c == 1,
    ;
    assert(w * (u1 * a + v1 * c) == w * (u1 * a) + w * (v1 * c)) by (nonlinear_arith);
    assert(w * (u1 * a) == (w * u1) * a) by (nonlinear_arith);
    assert(w * u1 == u * b) by (nonlinear_arith)
        requires
            w == u2 * b,
            u == u1 * u2,
    ;
    assert((u * b) * a == u * (a * b)) by (nonlinear_arith);
    assert(w * (v1 * c) == (w * v1) * c) by (nonlinear_arith);
    assert((w * v1 + v2) * c == (w * v1) * c + v2 * c) by (nonlinear_arith);
    lemma_combination_coprime(a * b, c, u, v);
}

/// A divisor of an integer coprime to `t` is coprime to `t`.
pub proof fn lemma_coprime_divisor(d: int, a: int, t: int)
    requires
        divides(d, a),
        coprime(a, t),
    ensures
        coprime(d, t),
{
    let (u, v) = lemma_coprime_combination(a, t);
    lemma_divides_quotient(d, a);
    let q = a / d;
    assert((u * q) * d + v * t == 1) by (nonlinear_arith)
        requires
            u * a + v * t == 1,
            a == d * q,
    ;
    lemma_combination_coprime(d, t, u * q, v);
}

/// An integer coprime to `t` is coprime to every divisor of `t`.
pub proof fn lemma_coprime_to_divisor(a: int, d: int, t: int)
    requires
        divides(d, t),
        coprime(a, t),
    ensures
        coprime(a, d),
{
    lemma_coprime_symmetric(a, t);
    lemma_coprime_divisor(d, t, a);
    lemma_coprime_symmetric(d, a);
}

/// A common multiple of two coprime positive integers is a multiple of their
/// product.
pub proof fn lemma_coprime_divisors_multiply(a: int, b: int, n: int)
    requires
        coprime(a, b),
        divides(a, n),
        divides(b, n),
    ensures
        divides(a * b, n),
{
    let (u, v) = lemma_coprime_combination(a, b);
    lemma_divides_quotient(a, n);
    lemma_divides_quotient(b, n);
    let qa = n / a;
    let qb = n / b;
    assert(a * b >= 1) by (nonlinear_arith)
        requires
            a >= 1,
            b >= 1,
    ;
    assert(n == (a * b) * (u * qb + v * qa)) by (nonlinear_arith)
        requires
            u * a + v * b == 1,
            n == a * qa,
            n == b * qb,
    ;
    lemma_multiple_divides(a * b, u * qb + v * qa);
}

/// Dividing two integers by their greatest common divisor leaves coprime
/// quotients.
pub proof fn lemma_gcd_cofactors_coprime(a: int, b: int)
    requires
        a != 0 || b != 0,
    ensures
        coprime(a / gcd(a, b), b / gcd(a, b)),
{
    let (u, v) = lemma_gcd_combination(a, b);
    let g = gcd(a, b);
    lemma_divides_quotient(g, a);
    lemma_divides_quotient(g, b);
    let qa = a / g;
    let qb = b / g;
    assert(u * qa + v * qb == 1) by (nonlinear_arith)
        requires
            g >= 1,
            u * a + v * b == g,
            a == g * qa,
            b == g * qb,
    ;
    lemma_combination_coprime(qa, qb, u, v);
}

/// Every common multiple of two positive integers is a multiple of their
/// product divided by their greatest common divisor.
pub proof fn lemma_common_multiple_divisible(a: int, b: int, x: int)
    requires
        is_common_multiple(x, a, b),
    ensures
        divides(a * (b / gcd(a, b)), x),
{
    let g = gcd(a, b);
    lemma_gcd_combination(a, b);
    lemma_gcd_cofactors_coprime(a, b);
    lemma_cofactor(g, a);
    lemma_cofactor(g, b);
    let qa = a / g;
    let qb = b / g;
    // x = a * k, and b divides x, so qb divides qa * k, hence k.
    lemma_divides_quotient(a, x);
    let k = x / a;
    lemma_divides_quotient(b, x);
    let j = x / b;
    assert(qa * k == qb * j) by (nonlinear_arith)
        requires
            g >= 1,
            x == a * k,
            x == b * j,
            a == g * qa,
            b == g * qb,
    ;
    lemma_multiple_divides(qb, j);
    lemma_coprime_symmetric(qa, qb);
    lemma_coprime_divides_factor(qb, qa, k);
    lemma_divides_scale(qb, k, a);
    assert(a * qb == qb * a && x == k * a) by (nonlinear_arith)
        requires
            x == a * k,
    ;
}

/// The least common multiple of two positive integers is their product
/// divided by their greatest common divisor, and it divides each of their
/// common multiples.
pub proof fn lemma_lcm(a: int, b: int)
    requires
        a >= 1,
        b >= 1,
    ensures
        is_lcm(lcm(a, b), a, b),
        lcm(a, b) == a * (b / gcd(a, b)),
        lcm(a, b) * gcd(a, b) == a * b,
        forall|x: int| #[trigger] is_common_multiple(x, a, b) ==> divides(lcm(a, b), x),
{
    let g = gcd(a, b);
    lemma_gcd_combination(a, b);
    lemma_cofactor(g, a);
    lemma_cofactor(g, b);
    let qa = a / g;
    let qb = b / g;
    let l = a * qb;
    assert(l >= 1 && l == b * qa && l * g == a * b) by (nonlinear_arith)
        requires
            a >= 1,
            qb >= 1,
            l == a * qb,
            a == g * qa,
            b == g * qb,
    ;
    lemma_multiple_divides(a, qb);
    lemma_multiple_divides(b, qa);
    assert forall|x: int| #[trigger] is_common_multiple(x, a, b) implies divides(l, x) by {
        lemma_common_multiple_divisible(a, b, x);
    }
    assert forall|x: int| x >= 1 && #[trigger] is_common_multiple(x, a, b) implies l <= x by {
        lemma_divides_bound(l, x);
    }
    assert(is_lcm(l, a, b));
    let m = lcm(a, b);
    assert(is_lcm(m, a, b));
    assert(is_common_multiple(m, a, b));
    assert(is_common_multiple(l, a, b));
}

} // verus!
