//! Divisibility, greatest common divisors and least common multiples of
//! mathematical integers, stated by what they are rather than by how they are
//! computed.

use vstd::arithmetic::div_mod::{
    lemma_fundamental_div_mod, lemma_mod_bound, lemma_mod_multiples_basic,
    lemma_mod_multiples_vanish, lemma_small_mod,
};
use crate::truncation::abs;
use vstd::prelude::*;

verus! {

/// The positive integer `d` divides `n`.
pub open spec fn divides(d: int, n: int) -> bool {
    d >= 1 && n % d == 0
}

/// `d` divides both `a` and `b`.
pub open spec fn is_common_divisor(d: int, a: int, b: int) -> bool {
    divides(d, a) && divides(d, b)
}

/// `g` is the greatest of the common divisors of `a` and `b`.
pub open spec fn is_gcd(g: int, a: int, b: int) -> bool {
    &&& is_common_divisor(g, a, b)
    &&& forall|d: int| #[trigger] is_common_divisor(d, a, b) ==> d <= g
}

/// The greatest common divisor of `a` and `b`; by convention 0 when both are 0,
/// where every positive integer is a common divisor.
pub open spec fn gcd(a: int, b: int) -> int {
    if a == 0 && b == 0 {
        0
    } else {
        choose|g: int| is_gcd(g, a, b)
    }
}

/// `a` and `b` have no common divisor but 1.
pub open spec fn coprime(a: int, b: int) -> bool {
    is_gcd(1, a, b)
}

/// `x` is a multiple of both `a` and `b`.
pub open spec fn is_common_multiple(x: int, a: int, b: int) -> bool {
    divides(a, x) && divides(b, x)
}

/// `l` is the least of the positive common multiples of `a` and `b`.
pub open spec fn is_lcm(l: int, a: int, b: int) -> bool {
    &&& l >= 1
    &&& is_common_multiple(l, a, b)
    &&& forall|x: int| x >= 1 && #[trigger] is_common_multiple(x, a, b) ==> l <= x
}

/// The least common multiple of the positive integers `a` and `b`.
pub open spec fn lcm(a: int, b: int) -> int {
    choose|l: int| is_lcm(l, a, b)
}

/// A multiple of `d` is `d` times its quotient by `d`.
pub proof fn lemma_divides_quotient(d: int, n: int)
    requires
        divides(d, n),
    ensures
        n == d * (n / d),
        n == (n / d) * d,
{
    lemma_fundamental_div_mod(n, d);
    assert(d * (n / d) == (n / d) * d) by (nonlinear_arith);
}

/// Every product with a positive `d` is a multiple of `d`.
pub proof fn lemma_multiple_divides(d: int, k: int)
    requires
        d >= 1,
    ensures
        divides(d, d * k),
        divides(d, k * d),
        (d * k) / d == k,
        (k * d) / d == k,
{
    lemma_mod_multiples_basic(k, d);
    assert(d * k == k * d) by (nonlinear_arith);
    lemma_fundamental_div_mod(k * d, d);
    let q = (k * d) / d;
    assert(q == k) by (nonlinear_arith)
        requires
            d >= 1,
            k * d == d * q,
    ;
}

/// A divisor of two numbers divides each of their integer combinations.
pub proof fn lemma_divides_combination(d: int, a: int, b: int, u: int, v: int)
    requires
        divides(d, a),
        divides(d, b),
    ensures
        divides(d, u * a + v * b),
{
    lemma_divides_quotient(d, a);
    lemma_divides_quotient(d, b);
    let qa = a / d;
    let qb = b / d;
    assert(u * a + v * b == d * (u * qa + v * qb)) by (nonlinear_arith)
        requires
            a == d * qa,
            b == d * qb,
    ;
    lemma_multiple_divides(d, u * qa + v * qb);
}

/// A divisor of `a` divides every multiple of `a`.
pub proof fn lemma_divides_product(d: int, a: int, k: int)
    requires
        divides(d, a),
    ensures
        divides(d, a * k),
        divides(d, k * a),
{
    lemma_divides_combination(d, a, a, k, 0);
    assert(k * a + 0 * a == a * k && a * k == k * a) by (nonlinear_arith);
}

/// Divisibility is transitive.
pub proof fn lemma_divides_transitive(a: int, b: int, c: int)
    requires
        divides(a, b),
        divides(b, c),
    ensures
        divides(a, c),
{
    lemma_divides_quotient(b, c);
    lemma_divides_product(a, b, c / b);
}

/// A divisor of a positive number is at most that number.
pub proof fn lemma_divides_bound(d: int, n: int)
    requires
        divides(d, n),
        n >= 1,
    ensures
        d <= n,
{
    if d > n {
        lemma_small_mod(n as nat, d as nat);
    }
}

/// Two positive integers that divide each other are equal.
pub proof fn lemma_divides_antisymmetric(a: int, b: int)
    requires
        divides(a, b),
        divides(b, a),
    ensures
        a == b,
{
    lemma_divides_bound(a, b);
    lemma_divides_bound(b, a);
}

/// Multiplying both sides by a positive factor keeps divisibility.
pub proof fn lemma_divides_scale(a: int, b: int, c: int)
    requires
        divides(a, b),
        c >= 1,
    ensures
        divides(a * c, b * c),
        divides(c * a, c * b),
{
    lemma_divides_quotient(a, b);
    let q = b / a;
    assert(a * c >= 1) by (nonlinear_arith)
        requires
            a >= 1,
            c >= 1,
    ;
    assert(b * c == (a * c) * q && a * c == c * a && b * c == c * b) by (nonlinear_arith)
        requires
            b == a * q,
    ;
    lemma_multiple_divides(a * c, q);
}

/// The quotient of a positive number by one of its divisors is a positive
/// divisor too, and the two multiply back to the number.
pub proof fn lemma_cofactor(d: int, n: int)
    requires
        divides(d, n),
        n >= 1,
    ensures
        n / d >= 1,
        divides(n / d, n),
        n == d * (n / d),
        d >= 2 ==> n / d < n,
{
    lemma_divides_quotient(d, n);
    let q = n / d;
    assert(q >= 1) by (nonlinear_arith)
        requires
            d >= 1,
            n >= 1,
            n == d * q,
    ;
    lemma_multiple_divides(q, d);
    if d >= 2 {
        assert(q < n) by (nonlinear_arith)
            requires
                d >= 2,
                q >= 1,
                n == d * q,
        ;
    }
}

/// Reducing modulo `m` and then modulo a divisor of `m` is reducing modulo
/// the divisor.
pub proof fn lemma_mod_of_mod(n: int, m: int, d: int)
    requires
        divides(d, m),
        m >= 1,
    ensures
        (n % m) % d == n % d,
{
    lemma_fundamental_div_mod(n, m);
    lemma_divides_quotient(d, m);
    let q = m / d;
    let k = n / m;
    assert(n == d * (q * k) + n % m) by (nonlinear_arith)
        requires
            n == m * k + n % m,
            m == d * q,
    ;
    lemma_mod_multiples_vanish(q * k, n % m, d);
}

/// Two integers have the same residue modulo `m` exactly when `m` divides
/// their difference.
pub proof fn lemma_congruent_iff_divides(x: int, y: int, m: int)
    requires
        m >= 1,
    ensures
        x % m == y % m <==> divides(m, x - y),
{
    lemma_fundamental_div_mod(x, m);
    lemma_fundamental_div_mod(y, m);
    lemma_mod_bound(x, m);
    lemma_mod_bound(y, m);
    let qx = x / m;
    let qy = y / m;
    if x % m == y % m {
        assert(x - y == m * (qx - qy)) by (nonlinear_arith)
            requires
                x == m * qx + x % m,
                y == m * qy + y % m,
                x % m == y % m,
        ;
        lemma_multiple_divides(m, qx - qy);
    }
    if divides(m, x - y) {
        lemma_divides_quotient(m, x - y);
        let q = (x - y) / m;
        assert(x == m * q + y) by (nonlinear_arith)
            requires
                x - y == m * q,
        ;
        lemma_mod_multiples_vanish(q, y, m);
    }
}

/// Zero is a multiple of every positive integer.
pub proof fn lemma_divides_zero(d: int)
    requires
        d >= 1,
    ensures
        divides(d, 0),
{
    lemma_multiple_divides(d, 0);
    assert(d * 0 == 0) by (nonlinear_arith);
}

/// A number and its negation have the same divisors.
pub proof fn lemma_divides_negation(d: int, n: int)
    requires
        divides(d, n),
    ensures
        divides(d, -n),
        divides(d, abs(n)),
{
    lemma_divides_combination(d, n, n, -1, 0);
    assert((-1) * n + 0 * n == -n) by (nonlinear_arith);
}

/// Two numbers have at most one greatest common divisor, and `gcd` names it.
pub proof fn lemma_gcd_unique(g: int, a: int, b: int)
    requires
        is_gcd(g, a, b),
    ensures
        gcd(a, b) == g,
        a != 0 || b != 0,
{
    if a == 0 && b == 0 {
        lemma_divides_zero(g + 1);
        assert(is_common_divisor(g + 1, a, b));
    }
    let h = choose|h: int| is_gcd(h, a, b);
    assert(is_common_divisor(h, a, b));
    assert(is_common_divisor(g, a, b));
}

/// The order of the two numbers does not matter to their greatest common
/// divisor.
pub proof fn lemma_is_gcd_symmetric(g: int, a: int, b: int)
    requires
        is_gcd(g, a, b),
    ensures
        is_gcd(g, b, a),
{
    assert forall|d: int| #[trigger] is_common_divisor(d, b, a) implies d <= g by {
        assert(is_common_divisor(d, a, b));
    }
}

/// The greatest common divisor of a non-zero number and zero is the number's
/// absolute value.
pub proof fn lemma_gcd_with_zero(a: int)
    requires
        a != 0,
    ensures
        is_gcd(abs(a), a, 0),
{
    let g = abs(a);
    lemma_multiple_divides(g, 1);
    assert(g * 1 == g) by (nonlinear_arith);
    lemma_divides_negation(g, g);
    lemma_divides_zero(g);
    assert forall|d: int| #[trigger] is_common_divisor(d, a, 0) implies d <= g by {
        lemma_divides_negation(d, a);
        lemma_divides_bound(d, g);
    }
}

/// Subtracting a multiple of one number from the other keeps the common
/// divisors, and so the greatest of them: the step of Euclid's algorithm.
pub proof fn lemma_gcd_step(g: int, a: int, b: int, k: int)
    requires
        is_gcd(g, b, a - k * b),
    ensures
        is_gcd(g, a, b),
{
    let r = a - k * b;
    assert(1 * r + k * b == a) by (nonlinear_arith)
        requires
            r == a - k * b,
    ;
    lemma_divides_combination(g, r, b, 1, k);
    assert forall|d: int| #[trigger] is_common_divisor(d, a, b) implies d <= g by {
        lemma_divides_combination(d, a, b, 1, -k);
        assert(1 * a + (-k) * b == r) by (nonlinear_arith)
            requires
                r == a - k * b,
        ;
        assert(is_common_divisor(d, b, r));
    }
}

} // verus!
