//! Arbitrary-precision integers, as `num_bigint` provides them.
//!
//! Verus cannot look inside a `BigInt`. This module tells it what a `BigInt`
//! stands for, the mathematical integer `int_of(x)`, and states for each
//! operation the library uses what it does to that integer. These statements
//! are read off the source of `num_bigint`; nothing in this module is proved,
//! and every proof in the library rests on it.

use num_bigint::BigInt;
use vstd::prelude::*;

verus! {

/// `num_bigint::BigInt`, a signed integer of any size, taken as opaque.
#[verifier::external_type_specification]
#[verifier::external_body]
pub struct ExBigInt(num_bigint::BigInt);

/// The integer that a `BigInt` holds: its sign and magnitude read as one
/// mathematical integer. The contracts below say what each operation does
/// in terms of it.
pub uninterp spec fn int_of(x: BigInt) -> int;

/// The quotient of `a` by `b`, rounded toward zero.
pub open spec fn trunc_div(a: int, b: int) -> int {
    if a >= 0 && b > 0 {
        a / b
    } else if a >= 0 {
        -(a / (-b))
    } else if b > 0 {
        -((-a) / b)
    } else {
        (-a) / (-b)
    }
}

/// The remainder that goes with `trunc_div`: it has the sign of `a`.
pub open spec fn trunc_rem(a: int, b: int) -> int {
    if a >= 0 && b > 0 {
        a % b
    } else if a >= 0 {
        a % (-b)
    } else if b > 0 {
        -((-a) % b)
    } else {
        -((-a) % (-b))
    }
}

/// `BigInt::from` on an `i32`: the result holds the same number.
#[verifier::external_body]
pub(crate) fn big_from_i32(v: i32) -> (r: BigInt)
    ensures
        int_of(r) == v,
{
    BigInt::from(v)
}

/// `BigInt::clone`: the copy holds the same number.
#[verifier::external_body]
pub(crate) fn big_clone(x: &BigInt) -> (r: BigInt)
    ensures
        int_of(r) == int_of(*x),
{
    x.clone()
}

/// `==` on `BigInt` (`PartialEq::eq`): true exactly when both hold the same
/// number.
#[verifier::external_body]
pub(crate) fn big_eq(a: &BigInt, b: &BigInt) -> (r: bool)
    ensures
        r == (int_of(*a) == int_of(*b)),
{
    a == b
}

/// `<` on `BigInt` (`PartialOrd::lt`): the order of the integers.
#[verifier::external_body]
pub(crate) fn big_lt(a: &BigInt, b: &BigInt) -> (r: bool)
    ensures
        r == (int_of(*a) < int_of(*b)),
{
    a < b
}

/// `+` on two `&BigInt` (`Add::add`): the sum.
#[verifier::external_body]
pub(crate) fn big_add(a: &BigInt, b: &BigInt) -> (r: BigInt)
    ensures
        int_of(r) == int_of(*a) + int_of(*b),
{
    a + b
}

/// `-` on two `&BigInt` (`Sub::sub`): the difference.
#[verifier::external_body]
pub(crate) fn big_sub(a: &BigInt, b: &BigInt) -> (r: BigInt)
    ensures
        int_of(r) == int_of(*a) - int_of(*b),
{
    a - b
}

/// `*` on two `&BigInt` (`Mul::mul`): the product.
#[verifier::external_body]
pub(crate) fn big_mul(a: &BigInt, b: &BigInt) -> (r: BigInt)
    ensures
        int_of(r) == int_of(*a) * int_of(*b),
{
    a * b
}

/// `/` on two `&BigInt` (`Div::div`): the quotient rounded toward zero. It
/// panics on a zero divisor, which `requires` leaves out.
#[verifier::external_body]
pub(crate) fn big_div(a: &BigInt, b: &BigInt) -> (r: BigInt)
    requires
        int_of(*b) != 0,
    ensures
        int_of(r) == trunc_div(int_of(*a), int_of(*b)),
{
    a / b
}

/// `%` on two `&BigInt` (`Rem::rem`): the remainder of the division rounded
/// toward zero, which has the sign of the dividend. It panics on a zero
/// divisor, which `requires` leaves out.
#[verifier::external_body]
pub(crate) fn big_rem(a: &BigInt, b: &BigInt) -> (r: BigInt)
    requires
        int_of(*b) != 0,
    ensures
        int_of(r) == trunc_rem(int_of(*a), int_of(*b)),
{
    a % b
}

} // verus!
