//! The greatest divisor of a modulus that is coprime to a target, and how
//! peeling off greatest common divisors arrives at it.

use crate::congruence::{coprime_part, exclude_spec, is_coprime_part, Congruence};
use crate::coprimality::{
    lemma_combination_coprime, lemma_common_divisor_divides_gcd, lemma_coprime_divides_factor,
    lemma_coprime_product, lemma_coprime_symmetric, lemma_coprime_to_divisor,
    lemma_gcd_combination,
};
use crate::divisibility::{
    coprime, divides, gcd, is_common_divisor, lemma_cofactor, lemma_divides_bound,
    lemma_divides_transitive, lemma_gcd_unique, lemma_mod_of_mod, lemma_multiple_divides,
};
use vstd::arithmetic::div_mod::lemma_mod_bound;
use vstd::prelude::*;

verus! {

/// `d` is the greatest divisor of `m` coprime to `t` in the strong sense:
/// every divisor of `m` coprime to `t` divides `d`, and what `d` leaves out
/// of `m` is coprime to whatever is coprime to `t`.
pub open spec fn is_strong_coprime_part(d: int, m: int, t: int) -> bool {
    &&& is_coprime_part(d, m, t)
    &&& forall|e: int| #[trigger] divides(e, m) && coprime(e, t) ==> divides(e, d)
    &&& forall|x: int| #[trigger] coprime(x, t) ==> coprime(x, m / d)
}

/// A modulus has at most one greatest divisor coprime to the target.
pub proof fn lemma_coprime_part_unique(d: int, m: int, t: int)
    requires
        is_coprime_part(d, m, t),
    ensures
        coprime_part(m, t) == d,
{
    let e = coprime_part(m, t);
    assert(is_coprime_part(e, m, t));
}

/// A modulus coprime to the target is its own coprime part.
proof fn lemma_coprime_part_base(m: int, t: int)
    requires
        m >= 1,
        gcd(m, t) == 1,
    ensures
        is_strong_coprime_part(m, m, t),
{
    lemma_gcd_combination(m, t);
    lemma_multiple_divides(m, 1);
    assert(m * 1 == m) by (nonlinear_arith);
    assert forall|e: int| #[trigger] divides(e, m) && coprime(e, t) implies e <= m by {
        lemma_divides_bound(e, m);
    }
    assert(m / m == 1);
    assert forall|x: int| #[trigger] coprime(x, t) implies coprime(x, m / m) by {
        assert(0 * x + 1 * 1 == 1) by (nonlinear_arith);
        lemma_combination_coprime(x, 1, 0, 1);
    }
}

/// Dividing the modulus by its greatest common divisor `c` with the target,
/// and taking `c` for the new target, keeps the coprime part.
proof fn lemma_coprime_part_step(d: int, m: int, t: int)
    requires
        m >= 1,
        gcd(m, t) != 1,
        is_strong_coprime_part(d, m / gcd(m, t), gcd(m, t)),
    ensures
        is_strong_coprime_part(d, m, t),
{
    let c = gcd(m, t);
    let q = m / c;
    lemma_gcd_combination(m, t);
    lemma_cofactor(c, m);
    lemma_divides_transitive(d, q, m);
    // coprime to the target
    assert(d % 1 == 0 && t % 1 == 0);
    assert forall|g: int| #[trigger] is_common_divisor(g, d, t) implies g <= 1 by {
        lemma_divides_transitive(g, d, m);
        lemma_common_divisor_divides_gcd(g, m, t);
        assert(is_common_divisor(g, d, c));
    }
    assert(coprime(d, t));
    // greatest, also by divisibility
    assert forall|e: int| #[trigger] divides(e, m) && coprime(e, t) implies divides(e, d) && e
        <= d by {
        lemma_coprime_to_divisor(e, c, t);
        assert(m == c * q);
        lemma_coprime_divides_factor(e, c, q);
        assert(divides(e, q) && coprime(e, c));
        lemma_divides_bound(e, d);
    }
    // what is left out
    lemma_cofactor(d, q);
    let s = q / d;
    assert(m == d * (c * s)) by (nonlinear_arith)
        requires
            m == c * q,
            q == d * s,
    ;
    lemma_multiple_divides(d, c * s);
    assert(m / d == c * s);
    assert forall|x: int| #[trigger] coprime(x, t) implies coprime(x, m / d) by {
        lemma_coprime_to_divisor(x, c, t);
        assert(coprime(x, q / d));
        lemma_coprime_symmetric(x, c);
        lemma_coprime_symmetric(x, s);
        lemma_coprime_product(c, s, x);
        lemma_coprime_symmetric(c * s, x);
    }
}

/// Every positive modulus has a greatest divisor coprime to the target, in
/// the strong sense. It is the modulus itself when that is coprime to the
/// target; otherwise it is the coprime part of the modulus divided by its
/// greatest common divisor with the target, with that divisor for the new
/// target.
pub proof fn lemma_coprime_part(m: int, t: int)
    requires
        m >= 1,
    ensures
        is_strong_coprime_part(coprime_part(m, t), m, t),
        coprime_part(m, t) >= 1,
        gcd(m, t) == 1 ==> coprime_part(m, t) == m,
        gcd(m, t) != 1 ==> coprime_part(m, t) == coprime_part(m / gcd(m, t), gcd(m, t)),
    decreases m,
{
    let c = gcd(m, t);
    lemma_gcd_combination(m, t);
    if c == 1 {
        lemma_coprime_part_base(m, t);
        lemma_coprime_part_unique(m, m, t);
    } else {
        lemma_cofactor(c, m);
        lemma_coprime_part(m / c, c);
        let d = coprime_part(m / c, c);
        lemma_coprime_part_step(d, m, t);
        lemma_coprime_part_unique(d, m, t);
    }
}

/// Every divisor of the modulus that is coprime to the target divides the
/// coprime part.
pub proof fn lemma_coprime_part_greatest(m: int, t: int, e: int)
    requires
        m >= 1,
        divides(e, m),
        coprime(e, t),
    ensures
        divides(e, coprime_part(m, t)),
{
    lemma_coprime_part(m, t);
}

/// What the coprime part leaves out of the modulus is coprime to whatever
/// is coprime to the target.
pub proof fn lemma_coprime_part_rest(m: int, t: int, x: int)
    requires
        m >= 1,
        coprime(x, t),
    ensures
        coprime(x, m / coprime_part(m, t)),
{
    lemma_coprime_part(m, t);
}

/// Excluding a target from a valid class gives a valid class whose modulus
/// divides the old one and has no common divisor with the target but 1; the
/// new class holds of every integer of which the old one holds. Excluding
/// the same target once more changes nothing.
pub proof fn lemma_exclude(a: Congruence, target: int)
    requires
        a.valid(),
    ensures
        exclude_spec(a, target).valid(),
        divides(exclude_spec(a, target).m, a.m),
        gcd(exclude_spec(a, target).m, target) == 1,
        forall|n: int| #[trigger] a.holds_of(n) ==> exclude_spec(a, target).holds_of(n),
        exclude_spec(exclude_spec(a, target), target) == exclude_spec(a, target),
{
    let d = coprime_part(a.m, target);
    lemma_coprime_part(a.m, target);
    lemma_gcd_unique(1, d, target);
    lemma_mod_bound(a.r, d);
    assert forall|n: int| #[trigger] a.holds_of(n) implies exclude_spec(a, target).holds_of(
        n,
    ) by {
        lemma_mod_of_mod(n, a.m, d);
    }
    lemma_coprime_part(d, target);
    lemma_mod_of_mod(a.r, d, d);
}

} // verus!
