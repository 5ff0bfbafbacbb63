//! The extended Euclidean algorithm: for two integers it finds coefficients
//! that combine them into their greatest common divisor.

use crate::divisibility::{gcd, is_gcd, lemma_gcd_step, lemma_gcd_unique, lemma_gcd_with_zero};
use crate::integer::{
    big_clone, big_div, big_eq, big_from_i32, big_mul, big_rem, big_sub, int_of, trunc_div,
    trunc_rem,
};
use crate::truncation::{abs, lemma_trunc_div_rem};
use num_bigint::BigInt;
use vstd::prelude::*;

verus! {

/// The iterative reduction from the state it is in. `x1` and `x2` are the
/// last two remainders, `(s11, s21)` and `(s12, s22)` the coefficients that
/// give them from the two given numbers. Each step divides `x1` by `x2`,
/// rounding toward zero, and the reduction ends when `x2` is zero.
pub open spec fn euclid_steps(x1: int, x2: int, s11: int, s21: int, s12: int, s22: int) -> (
    int,
    int,
    int,
)
    decreases abs(x2),
    via euclid_steps_decreases
{
    if x2 == 0 {
        (s11, s21, x1)
    } else {
        let k = trunc_div(x1, x2);
        euclid_steps(x2, trunc_rem(x1, x2), s12, s22, s11 - k * s12, s21 - k * s22)
    }
}

#[via_fn]
proof fn euclid_steps_decreases(x1: int, x2: int, s11: int, s21: int, s12: int, s22: int) {
    if x2 != 0 {
        lemma_trunc_div_rem(x1, x2);
    }
}

/// The triple `(u, v, c)` that the iterative algorithm gives for `x` and `y`.
pub open spec fn bezout_spec(x: int, y: int) -> (int, int, int) {
    euclid_steps(x, y, 1, 0, 0, 1)
}

/// From any state whose coefficients give its two remainders, the reduction
/// ends with coefficients that give its last remainder, and that remainder
/// is, up to sign, the greatest common divisor of the two remainders it
/// started from. Non-negative remainders stay non-negative.
pub proof fn lemma_euclid_steps(
    x: int,
    y: int,
    x1: int,
    x2: int,
    s11: int,
    s21: int,
    s12: int,
    s22: int,
)
    requires
        s11 * x + s21 * y == x1,
        s12 * x + s22 * y == x2,
    ensures
        ({
            let (u, v, c) = euclid_steps(x1, x2, s11, s21, s12, s22);
            &&& u * x + v * y == c
            &&& abs(c) == gcd(x1, x2)
            &&& x1 != 0 || x2 != 0 ==> is_gcd(abs(c), x1, x2)
            &&& x1 >= 0 && x2 >= 0 ==> c >= 0
        }),
    decreases abs(x2),
{
    if x2 == 0 {
        if x1 != 0 {
            lemma_gcd_with_zero(x1);
            lemma_gcd_unique(abs(x1), x1, 0);
        }
    } else {
        let k = trunc_div(x1, x2);
        let r = trunc_rem(x1, x2);
        let t1 = s11 - k * s12;
        let t2 = s21 - k * s22;
        lemma_trunc_div_rem(x1, x2);
        assert(t1 * x + t2 * y == r) by (nonlinear_arith)
            requires
                s11 * x + s21 * y == x1,
                s12 * x + s22 * y == x2,
                x1 == x2 * k + r,
                t1 == s11 - k * s12,
                t2 == s21 - k * s22,
        ;
        lemma_euclid_steps(x, y, x2, r, s12, s22, t1, t2);
        let c = euclid_steps(x1, x2, s11, s21, s12, s22).2;
        assert(r == x1 - k * x2) by (nonlinear_arith)
            requires
                x1 == x2 * k + r,
        ;
        lemma_gcd_step(abs(c), x1, x2, k);
        lemma_gcd_unique(abs(c), x1, x2);
    }
}

/// The coefficients that the algorithm finds combine the two numbers into
/// its third result, which is their greatest common divisor up to sign, and
/// is positive when neither number is negative and one is not zero.
pub proof fn lemma_bezout_spec(x: int, y: int)
    ensures
        ({
            let (u, v, c) = bezout_spec(x, y);
            &&& u * x + v * y == c
            &&& abs(c) == gcd(x, y)
            &&& x != 0 || y != 0 ==> is_gcd(abs(c), x, y)
            &&& x >= 0 && y >= 0 ==> c == gcd(x, y)
        }),
{
    assert(1 * x + 0 * y == x && 0 * x + 1 * y == y) by (nonlinear_arith);
    lemma_euclid_steps(x, y, x, y, 1, 0, 0, 1);
}

/// Coefficients `u`, `v` and a value `c` with `u * x + v * y == c`, where `c`
/// is the greatest common divisor of `x` and `y` up to sign (and 0 when both
/// are 0). The result is the one that the iterative reduction with division
/// rounded toward zero arrives at.
pub fn bezout(x: &BigInt, y: &BigInt) -> (res: (BigInt, BigInt, BigInt))
    ensures
        (int_of(res.0), int_of(res.1), int_of(res.2)) == bezout_spec(int_of(*x), int_of(*y)),
        int_of(res.0) * int_of(*x) + int_of(res.1) * int_of(*y) == int_of(res.2),
        abs(int_of(res.2)) == gcd(int_of(*x), int_of(*y)),
        int_of(*x) != 0 || int_of(*y) != 0 ==> is_gcd(
            abs(int_of(res.2)),
            int_of(*x),
            int_of(*y),
        ),
        int_of(*x) >= 0 && int_of(*y) >= 0 ==> int_of(res.2) == gcd(int_of(*x), int_of(*y)),
{
    let zero = big_from_i32(0);
    let mut x1 = big_clone(x);
    let mut x2 = big_clone(y);
    let mut s11 = big_from_i32(1);
    let mut s21 = big_from_i32(0);
    let mut s12 = big_from_i32(0);
    let mut s22 = big_from_i32(1);
    while !big_eq(&x2, &zero)
        invariant
            int_of(zero) == 0,
            euclid_steps(
                int_of(x1),
                int_of(x2),
                int_of(s11),
                int_of(s21),
                int_of(s12),
                int_of(s22),
            ) == bezout_spec(int_of(*x), int_of(*y)),
        decreases abs(int_of(x2)),
    {
        proof {
            lemma_trunc_div_rem(int_of(x1), int_of(x2));
        }
        let k = big_div(&x1, &x2);
        let r = big_rem(&x1, &x2);
        let t11 = big_sub(&s11, &big_mul(&k, &s12));
        let t21 = big_sub(&s21, &big_mul(&k, &s22));
        x1 = x2;
        x2 = r;
        s11 = s12;
        s21 = s22;
        s12 = t11;
        s22 = t21;
    }
    proof {
        lemma_bezout_spec(int_of(*x), int_of(*y));
    }
    (s11, s21, x1)
}

/// The triple that the recursive algorithm gives for `x` and `y` when the
/// innermost call hands out `mark` as the coefficient of its zero argument.
pub open spec fn bezout_marked_spec(x: int, y: int, mark: int) -> (int, int, int)
    decreases abs(y),
    via bezout_marked_decreases
{
    if y == 0 {
        (1, mark, x)
    } else {
        let (v, u, c) = bezout_marked_spec(y, trunc_rem(x, y), 1 - mark);
        (u, v - u * trunc_div(x, y), c)
    }
}

#[via_fn]
proof fn bezout_marked_decreases(x: int, y: int, mark: int) {
    if y != 0 {
        lemma_trunc_div_rem(x, y);
    }
}

/// The recursive algorithm finds coefficients that combine the two numbers
/// into its third result, and that result is the one of the iterative
/// algorithm, whatever the mark.
pub proof fn lemma_bezout_marked_spec(x: int, y: int, mark: int)
    ensures
        ({
            let (u, v, c) = bezout_marked_spec(x, y, mark);
            &&& u * x + v * y == c
            &&& forall|s11: int, s21: int, s12: int, s22: int|
                c == (#[trigger] euclid_steps(x, y, s11, s21, s12, s22)).2
        }),
    decreases abs(y),
{
    if y == 0 {
        assert(1 * x + mark * 0 == x) by (nonlinear_arith);
    } else {
        let k = trunc_div(x, y);
        let r = trunc_rem(x, y);
        lemma_trunc_div_rem(x, y);
        lemma_bezout_marked_spec(y, r, 1 - mark);
        let (v, u, c) = bezout_marked_spec(y, r, 1 - mark);
        assert(u * x + (v - u * k) * y == c) by (nonlinear_arith)
            requires
                v * y + u * r == c,
                x == y * k + r,
        ;
        assert forall|s11: int, s21: int, s12: int, s22: int|
            c == (#[trigger] euclid_steps(x, y, s11, s21, s12, s22)).2 by {
            assert(c == euclid_steps(y, r, s12, s22, s11 - k * s12, s21 - k * s22).2);
        }
    }
}

/// The recursive algorithm from a given mark.
fn bezout_marked(x: &BigInt, y: &BigInt, mark: i32) -> (res: (BigInt, BigInt, BigInt))
    requires
        0 <= mark <= 1,
    ensures
        (int_of(res.0), int_of(res.1), int_of(res.2)) == bezout_marked_spec(
            int_of(*x),
            int_of(*y),
            mark as int,
        ),
    decreases abs(int_of(*y)),
{
    if big_eq(y, &big_from_i32(0)) {
        (big_from_i32(1), big_from_i32(mark), big_clone(x))
    } else {
        proof {
            lemma_trunc_div_rem(int_of(*x), int_of(*y));
        }
        let x1 = big_rem(x, y);
        let k = big_div(x, y);
        let (v, u, c) = bezout_marked(y, &x1, 1 - mark);
        let w = big_sub(&v, &big_mul(&u, &k));
        (u, w, c)
    }
}

/// Coefficients `u`, `v` and a value `c` with `u * x + v * y == c`, found by
/// recursion. `c` is the same as that of `bezout`, so it is the greatest
/// common divisor of `x` and `y` up to sign; the coefficients may differ from
/// those of `bezout`, and nothing is promised of their signs.
pub fn bezout_recursive(x: &BigInt, y: &BigInt) -> (res: (BigInt, BigInt, BigInt))
    ensures
        (int_of(res.0), int_of(res.1), int_of(res.2)) == bezout_marked_spec(
            int_of(*x),
            int_of(*y),
            0,
        ),
        int_of(res.0) * int_of(*x) + int_of(res.1) * int_of(*y) == int_of(res.2),
        int_of(res.2) == bezout_spec(int_of(*x), int_of(*y)).2,
        abs(int_of(res.2)) == gcd(int_of(*x), int_of(*y)),
{
    proof {
        lemma_bezout_marked_spec(int_of(*x), int_of(*y), 0);
        lemma_bezout_spec(int_of(*x), int_of(*y));
    }
    bezout_marked(x, y, 0)
}

} // verus!
