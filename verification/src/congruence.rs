//! The mathematical model: a congruence class and what the combinators make
//! of congruence classes.

use crate::bezout::bezout_spec;
use crate::divisibility::{coprime, divides, gcd};
use vstd::prelude::*;

verus! {

/// The statement "the unknown integer is congruent to `r` modulo `m`".
pub struct Congruence {
    pub r: int,
    pub m: int,
}

impl Congruence {
    /// The modulus is positive and the residue is the canonical one, in
    /// `[0, m)`.
    pub open spec fn valid(self) -> bool {
        self.m >= 1 && 0 <= self.r < self.m
    }

    /// The integer `n` is in this class.
    pub open spec fn holds_of(self, n: int) -> bool {
        n % self.m == self.r
    }
}

/// The class of all integers: residue 0 modulo 1.
pub open spec fn identity_spec() -> Congruence {
    Congruence { r: 0, m: 1 }
}

/// The class of `n` modulo the positive integer `m`.
pub open spec fn make_spec(n: int, m: int) -> Congruence {
    Congruence { r: n % m, m: m }
}

/// The class modulo the product of the two moduli that the coefficients of
/// `bezout_spec` single out. For coprime moduli it is the one class that
/// agrees with `a` modulo `a.m` and with `r1` modulo `m1`.
pub open spec fn extend_spec(a: Congruence, m1: int, r1: int) -> Congruence {
    let (u, v, c) = bezout_spec(a.m, m1);
    Congruence { r: (r1 * u * a.m + a.r * v * m1) % (a.m * m1), m: a.m * m1 }
}

/// `x` is a solution of the pair of congruences `x == r0 (mod m0)` and
/// `x == r1 (mod m1)` in the range `[0, m0 * m1)`.
pub open spec fn is_crt_solution(x: int, m0: int, r0: int, m1: int, r1: int) -> bool {
    0 <= x < m0 * m1 && x % m0 == r0 && x % m1 == r1
}

/// `d` is the greatest divisor of `m` that is coprime to `t`.
pub open spec fn is_coprime_part(d: int, m: int, t: int) -> bool {
    &&& divides(d, m)
    &&& coprime(d, t)
    &&& forall|e: int| #[trigger] divides(e, m) && coprime(e, t) ==> e <= d
}

/// The greatest divisor of the positive integer `m` that is coprime to `t`.
pub open spec fn coprime_part(m: int, t: int) -> int {
    choose|d: int| is_coprime_part(d, m, t)
}

/// What `a` says modulo the greatest divisor of its modulus that is coprime
/// to `target`.
pub open spec fn exclude_spec(a: Congruence, target: int) -> Congruence {
    make_spec(a.r, coprime_part(a.m, target))
}

/// The class modulo the least common multiple of the two moduli in which the
/// two merge. The least common multiple is split into two coprime factors,
/// one dividing `a.m` and one dividing `b.m`; the result agrees with `a`
/// modulo the first and with `b` modulo the second.
pub open spec fn merge_spec(a: Congruence, b: Congruence) -> Congruence {
    let from_b = exclude_spec(b, a.m / gcd(a.m, b.m));
    let from_a = exclude_spec(a, from_b.m);
    extend_spec(from_a, from_b.m, from_b.r)
}

/// The two classes have an integer in common.
pub open spec fn consistent(a: Congruence, b: Congruence) -> bool {
    exists|n: int| a.holds_of(n) && #[trigger] b.holds_of(n)
}

} // verus!
