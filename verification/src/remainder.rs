//! Congruences over arbitrary-precision integers, and the combinators that
//! extend, narrow and merge them.

use crate::bezout::bezout;
use crate::congruence::{
    consistent, coprime_part, exclude_spec, extend_spec, identity_spec, make_spec, merge_spec,
    Congruence,
};
use crate::coprimality::{lemma_coprime_iff_gcd_one, lemma_gcd_combination};
use crate::crt::lemma_extend_solves;
use crate::divisibility::{
    coprime, divides, gcd, lcm, lemma_cofactor, lemma_divides_transitive, lemma_gcd_unique,
    lemma_mod_of_mod, lemma_multiple_divides,
};
use crate::exclusion::lemma_coprime_part;
use crate::integer::{
    big_add, big_clone, big_div, big_eq, big_from_i32, big_lt, big_mul, big_rem, big_sub, int_of,
    trunc_rem,
};
use crate::merging::{lemma_consistent_criterion, lemma_merge_consistent, lemma_merge_modulus};
use crate::truncation::{into_mod, lemma_trunc_nonnegative};
use num_bigint::BigInt;
use vstd::arithmetic::div_mod::{lemma_mod_bound, lemma_small_mod};
use vstd::prelude::*;

verus! {

/// Why a combinator that tests its input refused it.
#[derive(Clone, Copy, Debug, PartialEq, Eq, Structural)]
pub enum CrtError {
    /// A modulus was zero or negative.
    NonPositiveModulus,
    /// Two moduli that had to be coprime have a common divisor.
    IncompatibleModuli,
    /// Two congruences have no integer in common.
    InconsistentEvidence,
}

/// The knowledge that an unknown integer is congruent to `r` modulo `m`,
/// with `m >= 1` and `0 <= r < m`.
#[derive(Debug)]
pub struct RemainderValue {
    r: BigInt,
    m: BigInt,
}

impl View for RemainderValue {
    type V = Congruence;

    /// The congruence that the value stands for.
    closed spec fn view(&self) -> Congruence {
        Congruence { r: int_of(self.r), m: int_of(self.m) }
    }
}

impl Clone for RemainderValue {
    /// A copy that stands for the same congruence.
    fn clone(&self) -> (res: Self)
        ensures
            res@ == self@,
    {
        proof {
            use_type_invariant(self);
        }
        RemainderValue { r: big_clone(&self.r), m: big_clone(&self.m) }
    }
}

/// The greatest common divisor of `x` and `y`: the third result of `bezout`
/// without its sign.
pub fn gcd_of(x: &BigInt, y: &BigInt) -> (g: BigInt)
    ensures
        int_of(g) == gcd(int_of(*x), int_of(*y)),
{
    let (_, _, c) = bezout(x, y);
    let zero = big_from_i32(0);
    if big_lt(&c, &zero) {
        big_sub(&zero, &c)
    } else {
        c
    }
}

/// The solution of `x == r1 (mod m1)` and `x == r2 (mod m2)` modulo
/// `m1 * m2`, for coprime `m1` and `m2`.
fn find_cnrt(m1: &BigInt, m2: &BigInt, r1: &BigInt, r2: &BigInt) -> (res: RemainderValue)
    requires
        int_of(*m1) >= 1,
        int_of(*m2) >= 1,
    ensures
        res@ == extend_spec(
            (Congruence { r: int_of(*r1), m: int_of(*m1) }),
            int_of(*m2),
            int_of(*r2),
        ),
        res@.valid(),
{
    let (u, v, _) = bezout(m1, m2);
    let ans = big_add(&big_mul(&big_mul(r2, &u), m1), &big_mul(&big_mul(r1, &v), m2));
    let mod12 = big_mul(m1, m2);
    proof {
        assert(int_of(*m1) * int_of(*m2) >= 1) by (nonlinear_arith)
            requires
                int_of(*m1) >= 1,
                int_of(*m2) >= 1,
        ;
    }
    RemainderValue { r: into_mod(&ans, &mod12), m: mod12 }
}

impl RemainderValue {
    /// Every value holds a positive modulus and a residue in `[0, m)`.
    #[verifier::type_invariant]
    spec fn well_formed(self) -> bool {
        self@.valid()
    }

    /// The neutral element of `merge`: residue 0 modulo 1, which holds of
    /// every integer.
    pub fn new() -> (res: RemainderValue)
        ensures
            res@ == identity_spec(),
    {
        RemainderValue { r: big_from_i32(0), m: big_from_i32(1) }
    }

    /// The residue, in `[0, m)`.
    pub fn residue(&self) -> (r: &BigInt)
        ensures
            int_of(*r) == self@.r,
            self@.valid(),
    {
        proof {
            use_type_invariant(self);
        }
        &self.r
    }

    /// The modulus, at least 1.
    pub fn modulus(&self) -> (m: &BigInt)
        ensures
            int_of(*m) == self@.m,
            self@.valid(),
    {
        proof {
            use_type_invariant(self);
        }
        &self.m
    }

    /// The class of `n` modulo `m`, with the residue brought into `[0, m)`
    /// also for a negative `n`.
    pub fn make(n: &BigInt, m: &BigInt) -> (res: RemainderValue)
        requires
            int_of(*m) >= 1,
        ensures
            res@ == make_spec(int_of(*n), int_of(*m)),
            res@.valid(),
            res@.holds_of(int_of(*n)),
    {
        RemainderValue { r: into_mod(n, m), m: big_clone(m) }
    }

    /// `make` for any `m`: a modulus below 1 is refused.
    pub fn try_make(n: &BigInt, m: &BigInt) -> (res: Result<RemainderValue, CrtError>)
        ensures
            (match res {
                Ok(v) => int_of(*m) >= 1 && v@ == make_spec(int_of(*n), int_of(*m)) && v@.valid(),
                Err(e) => int_of(*m) < 1 && e == CrtError::NonPositiveModulus,
            }),
    {
        if big_lt(m, &big_from_i32(1)) {
            Err(CrtError::NonPositiveModulus)
        } else {
            Ok(RemainderValue::make(n, m))
        }
    }

    /// Combines this congruence with the observation `r1` modulo `m1`, for
    /// `m1` coprime to the modulus held: the result is the class modulo the
    /// product that agrees with both. Coprimality is not tested; without
    /// it the result is still the valid class that `extend_spec` names, but
    /// it need not agree with either.
    pub fn extend(self, m1: &BigInt, r1: &BigInt) -> (res: RemainderValue)
        requires
            int_of(*m1) >= 1,
        ensures
            res@ == extend_spec(self@, int_of(*m1), int_of(*r1)),
            res@.valid(),
            res@.m == self@.m * int_of(*m1),
            gcd(self@.m, int_of(*m1)) == 1 ==> res@.r % self@.m == self@.r && res@.r % int_of(*m1)
                == int_of(*r1) % int_of(*m1),
    {
        proof {
            use_type_invariant(&self);
            lemma_coprime_iff_gcd_one(self@.m, int_of(*m1));
            if coprime(self@.m, int_of(*m1)) {
                lemma_extend_solves(self@, int_of(*m1), int_of(*r1));
                lemma_small_mod(self@.r as nat, self@.m as nat);
            }
        }
        find_cnrt(&self.m, m1, &self.r, r1)
    }

    /// `extend` with its conditions tested: a modulus below 1 is refused,
    /// and so is one that is not coprime to the modulus held.
    pub fn try_extend(self, m1: &BigInt, r1: &BigInt) -> (res: Result<RemainderValue, CrtError>)
        ensures
            (match res {
                Ok(v) => {
                    &&& int_of(*m1) >= 1
                    &&& gcd(self@.m, int_of(*m1)) == 1
                    &&& v@ == extend_spec(self@, int_of(*m1), int_of(*r1))
                    &&& v@.valid()
                    &&& v@.r % self@.m == self@.r
                    &&& v@.r % int_of(*m1) == int_of(*r1) % int_of(*m1)
                },
                Err(e) => if int_of(*m1) < 1 {
                    e == CrtError::NonPositiveModulus
                } else {
                    gcd(self@.m, int_of(*m1)) != 1 && e == CrtError::IncompatibleModuli
                },
            }),
    {
        if big_lt(m1, &big_from_i32(1)) {
            return Err(CrtError::NonPositiveModulus);
        }
        proof {
            use_type_invariant(&self);
            lemma_gcd_combination(self@.m, int_of(*m1));
        }
        let g = gcd_of(&self.m, m1);
        if big_eq(&g, &big_from_i32(1)) {
            Ok(self.extend(m1, r1))
        } else {
            Err(CrtError::IncompatibleModuli)
        }
    }

    /// Narrows this congruence to the greatest divisor of its modulus that
    /// is coprime to `target`, by dividing the modulus by its greatest
    /// common divisor with the target, then with that divisor, and so on
    /// until the divisor is 1. The sign of the target does not matter, and
    /// a target of 0 leaves the modulus 1.
    pub fn exclude(self, target: &BigInt) -> (res: RemainderValue)
        ensures
            res@ == exclude_spec(self@, int_of(*target)),
            res@.valid(),
            divides(res@.m, self@.m),
            coprime(res@.m, int_of(*target)),
            gcd(res@.m, int_of(*target)) == 1,
    {
        proof {
            use_type_invariant(&self);
            lemma_small_mod(self@.r as nat, self@.m as nat);
            lemma_multiple_divides(self@.m, 1);
            assert(self@.m * 1 == self@.m) by (nonlinear_arith);
            lemma_coprime_part(self@.m, int_of(*target));
            lemma_gcd_unique(1, coprime_part(self@.m, int_of(*target)), int_of(*target));
        }
        let ghost r0 = self@.r;
        let ghost m0 = self@.m;
        let ghost t0 = int_of(*target);
        let ghost mut t = int_of(*target);
        let one = big_from_i32(1);
        let mut r = self.r;
        let mut m = self.m;
        let mut c = gcd_of(&m, target);
        while !big_eq(&c, &one)
            invariant
                int_of(one) == 1,
                int_of(m) >= 1,
                divides(int_of(m), m0),
                m0 >= 1,
                int_of(r) == r0 % int_of(m),
                0 <= int_of(r) < int_of(m),
                int_of(c) == gcd(int_of(m), t),
                coprime_part(int_of(m), t) == coprime_part(m0, t0),
            decreases int_of(m),
        {
            proof {
                lemma_gcd_combination(int_of(m), t);
                lemma_cofactor(int_of(c), int_of(m));
                lemma_coprime_part(int_of(m), t);
                lemma_trunc_nonnegative(int_of(m), int_of(c));
                let q = int_of(m) / int_of(c);
                lemma_trunc_nonnegative(int_of(r), q);
                lemma_mod_of_mod(r0, int_of(m), q);
                lemma_divides_transitive(q, int_of(m), m0);
                lemma_mod_bound(int_of(r), q);
                t = int_of(c);
            }
            let m1 = big_div(&m, &c);
            r = big_rem(&r, &m1);
            m = m1;
            c = gcd_of(&m, &c);
        }
        proof {
            lemma_coprime_part(int_of(m), t);
        }
        RemainderValue { r, m }
    }

    /// Merges this congruence with `result2` into one modulo the least
    /// common multiple of the two moduli, whether or not they are coprime.
    /// When the two have an integer in common, the result agrees with both.
    /// When they have none, the result is still the valid class that
    /// `merge_spec` names: where they contradict each other, one of them
    /// prevails.
    pub fn merge(self, result2: &RemainderValue) -> (res: RemainderValue)
        ensures
            res@ == merge_spec(self@, result2@),
            res@.valid(),
            res@.m == lcm(self@.m, result2@.m),
            consistent(self@, result2@) ==> res@.r % self@.m == self@.r && res@.r % result2@.m
                == result2@.r,
    {
        proof {
            use_type_invariant(&self);
            use_type_invariant(result2);
            lemma_merge_modulus(self@, result2@);
            if consistent(self@, result2@) {
                lemma_merge_consistent(self@, result2@);
            }
            lemma_gcd_combination(self@.m, result2@.m);
        }
        let (_, _, c) = bezout(&self.m, &result2.m);
        if big_eq(&big_from_i32(1), &c) {
            self.extend(&result2.m, &result2.r)
        } else {
            proof {
                lemma_trunc_nonnegative(self@.m, int_of(c));
            }
            let self_prevail_factors = big_div(&self.m, &c);
            let obj2 = result2.clone().exclude(&self_prevail_factors);
            self.exclude(&obj2.m).extend(&obj2.m, &obj2.r)
        }
    }

    /// `merge` with its condition tested: two congruences that have no
    /// integer in common, which is when their residues differ modulo the
    /// greatest common divisor of their moduli, are refused.
    pub fn try_merge(self, result2: &RemainderValue) -> (res: Result<RemainderValue, CrtError>)
        ensures
            (match res {
                Ok(v) => {
                    &&& consistent(self@, result2@)
                    &&& v@ == merge_spec(self@, result2@)
                    &&& v@.valid()
                    &&& v@.m == lcm(self@.m, result2@.m)
                    &&& v@.r % self@.m == self@.r
                    &&& v@.r % result2@.m == result2@.r
                },
                Err(e) => !consistent(self@, result2@) && e == CrtError::InconsistentEvidence,
            }),
    {
        proof {
            use_type_invariant(&self);
            use_type_invariant(result2);
            lemma_gcd_combination(self@.m, result2@.m);
            lemma_consistent_criterion(self@, result2@);
            lemma_trunc_nonnegative(self@.r, gcd(self@.m, result2@.m));
            lemma_trunc_nonnegative(result2@.r, gcd(self@.m, result2@.m));
        }
        let g = gcd_of(&self.m, &result2.m);
        if big_eq(&big_rem(&self.r, &g), &big_rem(&result2.r, &g)) {
            Ok(self.merge(result2))
        } else {
            Err(CrtError::InconsistentEvidence)
        }
    }

    /// Whether `n` reduced by the modulus, with the division rounded toward
    /// zero, is the residue. For `n >= 0` this says whether the congruence
    /// holds of `n`; a negative `n` passes only when it is a multiple of the
    /// modulus and the residue is 0.
    pub fn verify(&self, n: &BigInt) -> (ok: bool)
        ensures
            ok == (trunc_rem(int_of(*n), self@.m) == self@.r),
            int_of(*n) >= 0 ==> ok == self@.holds_of(int_of(*n)),
    {
        proof {
            use_type_invariant(self);
            if int_of(*n) >= 0 {
                lemma_trunc_nonnegative(int_of(*n), self@.m);
            }
        }
        big_eq(&big_rem(n, &self.m), &self.r)
    }
}

} // verus!
