//! What merging two congruences gives: a class modulo the least common
//! multiple of the two moduli, and the right one when the two have an
//! integer in common.

use crate::congruence::{
    consistent, coprime_part, exclude_spec, extend_spec, identity_spec, make_spec, merge_spec,
    Congruence,
};
use crate::coprimality::{
    lemma_coprime_divides_factor, lemma_coprime_divisors_multiply, lemma_coprime_symmetric,
    lemma_gcd_cofactors_coprime, lemma_gcd_combination, lemma_gcd_symmetric, lemma_lcm,
};
use crate::crt::{lemma_crt_unique, lemma_extend_solves};
use crate::divisibility::{
    coprime, divides, gcd, is_common_multiple, lcm, lemma_cofactor, lemma_congruent_iff_divides,
    lemma_divides_antisymmetric, lemma_divides_quotient, lemma_divides_scale,
    lemma_divides_transitive, lemma_mod_of_mod,
};
use crate::exclusion::{lemma_coprime_part, lemma_coprime_part_greatest, lemma_coprime_part_rest};
use vstd::arithmetic::div_mod::{lemma_mod_bound, lemma_mod_multiples_vanish, lemma_small_mod};
use vstd::prelude::*;

verus! {

/// The factor of the merged modulus that comes from the second modulus `m1`:
/// its greatest divisor coprime to what the first modulus `m0` has beyond
/// the greatest common divisor.
pub open spec fn second_part(m0: int, m1: int) -> int {
    coprime_part(m1, m0 / gcd(m0, m1))
}

/// The factor of the merged modulus that comes from the first modulus `m0`:
/// its greatest divisor coprime to the factor that comes from `m1`.
pub open spec fn first_part(m0: int, m1: int) -> int {
    coprime_part(m0, second_part(m0, m1))
}

/// What the second factor leaves out of the second modulus divides the first
/// factor.
proof fn lemma_second_rest_in_first(m0: int, m1: int)
    requires
        m0 >= 1,
        m1 >= 1,
    ensures
        divides(m1 / second_part(m0, m1), first_part(m0, m1)),
{
    let c = gcd(m0, m1);
    lemma_gcd_combination(m0, m1);
    lemma_cofactor(c, m0);
    lemma_cofactor(c, m1);
    let p = m0 / c;
    let q = m1 / c;
    let b = second_part(m0, m1);
    lemma_coprime_part(m1, p);
    lemma_cofactor(b, m1);
    let s = m1 / b;
    // s is coprime to b and to q, because b and q are coprime to p
    lemma_coprime_part_rest(m1, p, b);
    lemma_coprime_symmetric(b, s);
    lemma_gcd_cofactors_coprime(m0, m1);
    lemma_coprime_symmetric(p, q);
    lemma_coprime_part_rest(m1, p, q);
    lemma_coprime_symmetric(q, s);
    // so s divides c, which divides m0
    assert(m1 == q * c) by (nonlinear_arith)
        requires
            m1 == c * q,
    ;
    lemma_coprime_divides_factor(s, q, c);
    lemma_divides_transitive(s, c, m0);
    lemma_coprime_part_greatest(m0, b, s);
}

/// What the first factor leaves out of the first modulus divides the second
/// factor.
proof fn lemma_first_rest_in_second(m0: int, m1: int)
    requires
        m0 >= 1,
        m1 >= 1,
    ensures
        divides(m0 / first_part(m0, m1), second_part(m0, m1)),
{
    let c = gcd(m0, m1);
    lemma_gcd_combination(m0, m1);
    lemma_cofactor(c, m0);
    lemma_cofactor(c, m1);
    let p = m0 / c;
    let b = second_part(m0, m1);
    lemma_coprime_part(m1, p);
    let a = first_part(m0, m1);
    lemma_coprime_part(m0, b);
    lemma_cofactor(a, m0);
    let s = m0 / a;
    // s is coprime to p, because p is coprime to b
    lemma_coprime_symmetric(b, p);
    lemma_coprime_part_rest(m0, b, p);
    lemma_coprime_symmetric(p, s);
    // so s divides c, which divides m1
    assert(m0 == p * c) by (nonlinear_arith)
        requires
            m0 == c * p,
    ;
    lemma_coprime_divides_factor(s, p, c);
    lemma_divides_transitive(s, c, m1);
    lemma_coprime_part_greatest(m1, p, s);
}

/// The two factors are coprime divisors of the two moduli, and their product
/// is the least common multiple of the moduli.
pub proof fn lemma_parts(m0: int, m1: int)
    requires
        m0 >= 1,
        m1 >= 1,
    ensures
        divides(first_part(m0, m1), m0),
        divides(second_part(m0, m1), m1),
        coprime(first_part(m0, m1), second_part(m0, m1)),
        first_part(m0, m1) * second_part(m0, m1) == lcm(m0, m1),
        gcd(m0, m1) == 1 ==> first_part(m0, m1) == m0 && second_part(m0, m1) == m1,
{
    let c = gcd(m0, m1);
    lemma_gcd_combination(m0, m1);
    lemma_cofactor(c, m0);
    let a = first_part(m0, m1);
    let b = second_part(m0, m1);
    lemma_coprime_part(m1, m0 / c);
    lemma_coprime_part(m0, b);
    lemma_cofactor(a, m0);
    lemma_cofactor(b, m1);
    let l = lcm(m0, m1);
    lemma_lcm(m0, m1);
    // the product divides the least common multiple
    lemma_divides_transitive(a, m0, l);
    lemma_divides_transitive(b, m1, l);
    lemma_coprime_divisors_multiply(a, b, l);
    // both moduli divide the product
    lemma_first_rest_in_second(m0, m1);
    lemma_divides_scale(m0 / a, b, a);
    lemma_second_rest_in_first(m0, m1);
    lemma_divides_scale(m1 / b, a, b);
    assert(a * (m0 / a) == m0);
    assert(b * (m1 / b) == m1);
    assert(b * a == a * b) by (nonlinear_arith);
    assert(is_common_multiple(a * b, m0, m1));
    lemma_divides_antisymmetric(a * b, l);
    if c == 1 {
        assert(m0 / 1 == m0);
        lemma_gcd_symmetric(m0, m1);
    }
}

/// Merging gives a valid class modulo the least common multiple of the two
/// moduli; for coprime moduli it is what extending the first class by the
/// second gives.
pub proof fn lemma_merge_modulus(a: Congruence, b: Congruence)
    requires
        a.valid(),
        b.valid(),
    ensures
        merge_spec(a, b).valid(),
        merge_spec(a, b).m == lcm(a.m, b.m),
        gcd(a.m, b.m) == 1 ==> merge_spec(a, b) == extend_spec(a, b.m, b.r),
{
    lemma_parts(a.m, b.m);
    let m0 = first_part(a.m, b.m);
    let m1 = second_part(a.m, b.m);
    let from_b = exclude_spec(b, a.m / gcd(a.m, b.m));
    let from_a = exclude_spec(a, from_b.m);
    lemma_extend_solves(from_a, from_b.m, from_b.r);
    if gcd(a.m, b.m) == 1 {
        lemma_small_mod(a.r as nat, a.m as nat);
        lemma_small_mod(b.r as nat, b.m as nat);
    }
}

/// Merging the classes of one integer modulo two moduli gives the class of
/// that integer modulo their least common multiple.
pub proof fn lemma_merge_of_residues(n: int, m0: int, m1: int)
    requires
        m0 >= 1,
        m1 >= 1,
    ensures
        merge_spec(make_spec(n, m0), make_spec(n, m1)) == make_spec(n, lcm(m0, m1)),
{
    let a = make_spec(n, m0);
    let b = make_spec(n, m1);
    lemma_mod_bound(n, m0);
    lemma_mod_bound(n, m1);
    lemma_parts(m0, m1);
    lemma_merge_modulus(a, b);
    let d0 = first_part(m0, m1);
    let d1 = second_part(m0, m1);
    let l = lcm(m0, m1);
    let from_b = exclude_spec(b, m0 / gcd(m0, m1));
    let from_a = exclude_spec(a, from_b.m);
    lemma_mod_of_mod(n, m0, d0);
    lemma_mod_of_mod(n, m1, d1);
    lemma_extend_solves(from_a, d1, from_b.r);
    let x = merge_spec(a, b).r;
    let y = n % l;
    lemma_mod_bound(n, l);
    lemma_lcm(m0, m1);
    lemma_divides_transitive(d0, m0, l);
    lemma_divides_transitive(d1, m1, l);
    lemma_mod_of_mod(n, l, d0);
    lemma_mod_of_mod(n, l, d1);
    lemma_mod_bound(n, d0);
    lemma_mod_bound(n, d1);
    lemma_small_mod((n % d0) as nat, d0 as nat);
    lemma_small_mod((n % d1) as nat, d1 as nat);
    lemma_crt_unique(d0, d1, x, y);
}

/// Merging two valid classes that have an integer in common gives a class
/// that agrees with both.
pub proof fn lemma_merge_consistent(a: Congruence, b: Congruence)
    requires
        a.valid(),
        b.valid(),
        consistent(a, b),
    ensures
        merge_spec(a, b).r % a.m == a.r,
        merge_spec(a, b).r % b.m == b.r,
{
    let n = choose|n: int| a.holds_of(n) && #[trigger] b.holds_of(n);
    lemma_merge_of_residues(n, a.m, b.m);
    lemma_lcm(a.m, b.m);
    lemma_mod_of_mod(n, lcm(a.m, b.m), a.m);
    lemma_mod_of_mod(n, lcm(a.m, b.m), b.m);
}

/// The merge of two valid classes that have an integer in common holds of
/// exactly the integers of which both hold.
pub proof fn lemma_merge_meaning(a: Congruence, b: Congruence, n: int)
    requires
        a.valid(),
        b.valid(),
        consistent(a, b),
    ensures
        merge_spec(a, b).holds_of(n) <==> a.holds_of(n) && b.holds_of(n),
{
    lemma_merge_modulus(a, b);
    lemma_merge_consistent(a, b);
    lemma_lcm(a.m, b.m);
    if merge_spec(a, b).holds_of(n) {
        lemma_mod_of_mod(n, lcm(a.m, b.m), a.m);
        lemma_mod_of_mod(n, lcm(a.m, b.m), b.m);
    }
    if a.holds_of(n) && b.holds_of(n) {
        lemma_merge_of_residues(n, a.m, b.m);
    }
}

/// Two valid classes have an integer in common exactly when their residues
/// agree modulo the greatest common divisor of their moduli.
pub proof fn lemma_consistent_criterion(a: Congruence, b: Congruence)
    requires
        a.valid(),
        b.valid(),
    ensures
        consistent(a, b) <==> a.r % gcd(a.m, b.m) == b.r % gcd(a.m, b.m),
{
    let g = gcd(a.m, b.m);
    let (u, v) = lemma_gcd_combination(a.m, b.m);
    if consistent(a, b) {
        let n = choose|n: int| a.holds_of(n) && #[trigger] b.holds_of(n);
        lemma_mod_of_mod(n, a.m, g);
        lemma_mod_of_mod(n, b.m, g);
    }
    if a.r % g == b.r % g {
        lemma_congruent_iff_divides(a.r, b.r, g);
        lemma_divides_quotient(g, a.r - b.r);
        let k = (a.r - b.r) / g;
        let n = a.r - (u * k) * a.m;
        assert(n == a.m * (-(u * k)) + a.r) by (nonlinear_arith)
            requires
                n == a.r - (u * k) * a.m,
        ;
        lemma_mod_multiples_vanish(-(u * k), a.r, a.m);
        assert(n == b.m * (v * k) + b.r) by (nonlinear_arith)
            requires
                n == a.r - (u * k) * a.m,
                u * a.m + v * b.m == g,
                a.r - b.r == g * k,
        ;
        lemma_mod_multiples_vanish(v * k, b.r, b.m);
        lemma_small_mod(a.r as nat, a.m as nat);
        lemma_small_mod(b.r as nat, b.m as nat);
        assert(a.holds_of(n) && b.holds_of(n));
    }
}

/// The class of all integers is neutral for merging, on either side.
pub proof fn lemma_merge_identity(x: Congruence)
    requires
        x.valid(),
    ensures
        merge_spec(identity_spec(), x) == x,
        merge_spec(x, identity_spec()) == x,
{
    lemma_small_mod(x.r as nat, x.m as nat);
    assert(make_spec(x.r, 1) == identity_spec());
    assert(make_spec(x.r, x.m) == x);
    lemma_merge_of_residues(x.r, 1, x.m);
    lemma_merge_of_residues(x.r, x.m, 1);
    lemma_lcm(1, x.m);
    lemma_lcm(x.m, 1);
    lemma_gcd_combination(1, x.m);
    lemma_gcd_combination(x.m, 1);
    lemma_cofactor(gcd(1, x.m), 1);
    lemma_cofactor(gcd(x.m, 1), 1);
    assert(1 * (x.m / 1) == x.m);
    assert(x.m * (1int / 1int) == x.m);
}

/// A class modulo 1 carries no information: merged with any valid class,
/// on either side, it leaves that class unchanged.
pub proof fn lemma_merge_modulus_one(n: int, x: Congruence)
    requires
        x.valid(),
    ensures
        merge_spec(make_spec(n, 1), x) == x,
        merge_spec(x, make_spec(n, 1)) == x,
{
    assert(make_spec(n, 1) == identity_spec());
    lemma_merge_identity(x);
}

} // verus!
