use cnrt::{CrtError, RemainderValue};
use num_bigint::BigInt;
use num_integer::Integer;

fn big(n: i64) -> BigInt {
    BigInt::from(n)
}

fn class(r: i64, m: i64) -> RemainderValue {
    RemainderValue::make(&big(r), &big(m))
}

fn parts(v: &RemainderValue) -> (BigInt, BigInt) {
    (v.residue().clone(), v.modulus().clone())
}

fn pair(r: i64, m: i64) -> (BigInt, BigInt) {
    (big(r), big(m))
}

#[test]
fn new_is_zero_modulo_one() {
    assert_eq!(parts(&RemainderValue::new()), pair(0, 1));
}

#[test]
fn make_reduces_a_positive_number() {
    assert_eq!(parts(&class(19, 7)), pair(5, 7));
    assert_eq!(parts(&class(6, 7)), pair(6, 7));
    assert_eq!(parts(&class(7, 7)), pair(0, 7));
    assert_eq!(parts(&class(0, 7)), pair(0, 7));
}

#[test]
fn make_reduces_a_negative_number_into_range() {
    assert_eq!(parts(&class(-7, 5)), pair(3, 5));
    assert_eq!(parts(&class(-10, 5)), pair(0, 5));
    assert_eq!(parts(&class(-1, 5)), pair(4, 5));
    assert_eq!(parts(&class(-19122025, 32)), pair(23, 32));
}

#[test]
fn make_modulo_one_is_always_zero() {
    for n in -5i64..=5 {
        assert_eq!(parts(&class(n, 1)), pair(0, 1));
    }
}

#[test]
fn make_is_canonical_over_a_grid() {
    for n in -40i64..=40 {
        for m in 1i64..=12 {
            let (r, modulus) = parts(&class(n, m));
            assert_eq!(modulus, big(m));
            assert!(big(0) <= r && r < big(m), "range for {} mod {}", n, m);
            assert_eq!(r, big(n).mod_floor(&big(m)), "residue of {} mod {}", n, m);
        }
    }
}

#[test]
fn try_make_refuses_a_modulus_below_one() {
    let zero = RemainderValue::try_make(&big(5), &big(0));
    assert_eq!(zero.unwrap_err(), CrtError::NonPositiveModulus);
    let negative = RemainderValue::try_make(&big(5), &big(-3));
    assert_eq!(negative.unwrap_err(), CrtError::NonPositiveModulus);
}

#[test]
fn try_make_accepts_a_positive_modulus() {
    assert_eq!(parts(&RemainderValue::try_make(&big(-7), &big(5)).unwrap()), pair(3, 5));
    assert_eq!(parts(&RemainderValue::try_make(&big(9), &big(1)).unwrap()), pair(0, 1));
}

#[test]
fn clone_keeps_residue_and_modulus() {
    let v = class(22, 24);
    assert_eq!(parts(&v.clone()), pair(22, 24));
}

#[test]
fn extend_solves_a_coprime_pair() {
    assert_eq!(parts(&class(2, 3).extend(&big(5), &big(3))), pair(8, 15));
    assert_eq!(parts(&class(3, 5).extend(&big(3), &big(2))), pair(8, 15));
    assert_eq!(parts(&RemainderValue::new().extend(&big(32), &big(9))), pair(9, 32));
}

#[test]
fn extend_reduces_the_new_residue() {
    assert_eq!(parts(&class(2, 3).extend(&big(5), &big(13))), pair(8, 15));
    assert_eq!(parts(&class(2, 3).extend(&big(5), &big(-2))), pair(8, 15));
}

#[test]
fn extend_gives_the_only_solution_in_range() {
    for m0 in 1i64..=9 {
        for m1 in 1i64..=9 {
            if big(m0).gcd(&big(m1)) != big(1) {
                continue;
            }
            for r0 in 0..m0 {
                for r1 in 0..m1 {
                    let (x, m) = parts(&class(r0, m0).extend(&big(m1), &big(r1)));
                    assert_eq!(m, big(m0 * m1));
                    let expected: Vec<i64> =
                        (0..m0 * m1).filter(|y| y % m0 == r0 && y % m1 == r1).collect();
                    assert_eq!(expected.len(), 1);
                    assert_eq!(x, big(expected[0]));
                }
            }
        }
    }
}

#[test]
fn extend_without_coprime_moduli_still_gives_a_canonical_class() {
    assert_eq!(parts(&class(1, 4).extend(&big(6), &big(2))), pair(22, 24));
}

#[test]
fn try_extend_refuses_a_modulus_below_one() {
    let zero = class(1, 4).try_extend(&big(0), &big(2));
    assert_eq!(zero.unwrap_err(), CrtError::NonPositiveModulus);
    let negative = class(1, 4).try_extend(&big(-5), &big(2));
    assert_eq!(negative.unwrap_err(), CrtError::NonPositiveModulus);
}

#[test]
fn try_extend_refuses_moduli_with_a_common_divisor() {
    let shared = class(1, 4).try_extend(&big(6), &big(2));
    assert_eq!(shared.unwrap_err(), CrtError::IncompatibleModuli);
    let same = class(1, 4).try_extend(&big(4), &big(1));
    assert_eq!(same.unwrap_err(), CrtError::IncompatibleModuli);
}

#[test]
fn try_extend_accepts_coprime_moduli() {
    assert_eq!(parts(&class(2, 3).try_extend(&big(5), &big(3)).unwrap()), pair(8, 15));
    assert_eq!(parts(&class(2, 3).try_extend(&big(1), &big(0)).unwrap()), pair(2, 3));
}

#[test]
fn exclude_removes_what_the_target_shares() {
    assert_eq!(parts(&class(5, 12).exclude(&big(2))), pair(2, 3));
    assert_eq!(parts(&class(5, 12).exclude(&big(18))), pair(0, 1));
    assert_eq!(parts(&class(100, 360).exclude(&big(6))), pair(0, 5));
}

#[test]
fn exclude_leaves_a_coprime_modulus_alone() {
    assert_eq!(parts(&class(5, 12).exclude(&big(7))), pair(5, 12));
    assert_eq!(parts(&class(5, 12).exclude(&big(1))), pair(5, 12));
    assert_eq!(parts(&class(7, 8).exclude(&big(-1))), pair(7, 8));
}

#[test]
fn exclude_of_zero_leaves_modulus_one() {
    assert_eq!(parts(&class(5, 12).exclude(&big(0))), pair(0, 1));
    assert_eq!(parts(&RemainderValue::new().exclude(&big(0))), pair(0, 1));
}

#[test]
fn exclude_takes_a_negative_target_by_its_divisors() {
    assert_eq!(parts(&class(5, 12).exclude(&big(-4))), pair(2, 3));
    assert_eq!(parts(&class(5, 12).exclude(&big(-18))), pair(0, 1));
    assert_eq!(parts(&class(2, 3).exclude(&big(-1))), pair(2, 3));
}

#[test]
fn exclude_gives_the_greatest_coprime_divisor_over_a_grid() {
    for m in 1i64..=60 {
        for target in -20i64..=20 {
            let r0 = (m * 7 + 3) % m;
            let (r, d) = parts(&class(r0, m).exclude(&big(target)));
            assert_eq!(d.gcd(&big(target)), big(1), "{} against {}", m, target);
            let greatest = (1..=m)
                .filter(|e| m % e == 0 && big(*e).gcd(&big(target)) == big(1))
                .max()
                .unwrap();
            assert_eq!(d, big(greatest), "{} against {}", m, target);
            assert_eq!(r, big(r0 % greatest), "{} against {}", m, target);
        }
    }
}

#[test]
fn exclude_twice_changes_nothing_more() {
    let once = class(100, 360).exclude(&big(6));
    let twice = once.clone().exclude(&big(6));
    assert_eq!(parts(&once), parts(&twice));
}

#[test]
fn merge_of_coprime_moduli() {
    assert_eq!(parts(&class(2, 3).merge(&class(3, 5))), pair(8, 15));
    assert_eq!(parts(&class(3, 5).merge(&class(2, 3))), pair(8, 15));
}

#[test]
fn merge_of_moduli_with_a_common_divisor() {
    assert_eq!(parts(&class(3, 4).merge(&class(1, 6))), pair(7, 12));
    assert_eq!(parts(&class(1, 6).merge(&class(3, 4))), pair(7, 12));
    assert_eq!(parts(&class(5, 12).merge(&class(5, 12))), pair(5, 12));
    assert_eq!(parts(&class(5, 12).merge(&class(1, 4))), pair(5, 12));
    assert_eq!(parts(&class(1, 4).merge(&class(5, 12))), pair(5, 12));
}

#[test]
fn merge_of_prime_powers_of_different_height() {
    let n: i64 = 123456789;
    let a = class(n, 1 << 20);
    let b = class(n, 7776);
    assert_eq!(parts(&a.clone().merge(&b)), pair(123456789, 254803968));
    assert_eq!(parts(&b.merge(&a)), pair(123456789, 254803968));
}

#[test]
fn merge_step_by_step() {
    let n = big(19122025);
    let moduli = [32i64, 12, 28, 77, 93, 121, 17, 711];
    let expected = [
        pair(9, 32),
        pair(73, 96),
        pair(265, 672),
        pair(6313, 7392),
        pair(102409, 229152),
        pair(1477321, 2520672),
        pair(19122025, 42851424),
        pair(19122025, 10155787488),
    ];
    let mut acc = RemainderValue::new();
    for (m, want) in moduli.iter().zip(expected.iter()) {
        let next = RemainderValue::make(&n, &big(*m));
        assert!(next.verify(&n));
        acc = acc.merge(&next);
        assert_eq!(&parts(&acc), want);
        assert!(acc.verify(&n));
    }
    let lcm = moduli.iter().fold(big(1), |l, m| l.lcm(&big(*m)));
    assert_eq!(acc.modulus(), &lcm);
    assert_eq!(acc.residue(), &n.mod_floor(&lcm));
}

#[test]
fn merge_of_one_integer_over_a_grid() {
    for n in [-35i64, -1, 0, 1, 17, 1000, 19122025] {
        for m0 in 1i64..=24 {
            for m1 in 1i64..=24 {
                let (r, m) = parts(&class(n, m0).merge(&class(n, m1)));
                let lcm = big(m0).lcm(&big(m1));
                assert_eq!(m, lcm, "modulus for {} and {}", m0, m1);
                assert_eq!(r, big(n).mod_floor(&lcm), "residue of {} for {} and {}", n, m0, m1);
            }
        }
    }
}

#[test]
fn merge_with_the_neutral_element() {
    for (r, m) in [(0i64, 1i64), (5, 12), (7, 8), (19122025, 42851424)] {
        assert_eq!(parts(&RemainderValue::new().merge(&class(r, m))), pair(r, m));
        assert_eq!(parts(&class(r, m).merge(&RemainderValue::new())), pair(r, m));
    }
}

#[test]
fn merge_with_a_class_modulo_one() {
    for n in [-3i64, 0, 44] {
        assert_eq!(parts(&class(n, 1).merge(&class(5, 12))), pair(5, 12));
        assert_eq!(parts(&class(5, 12).merge(&class(n, 1))), pair(5, 12));
    }
}

#[test]
fn merge_of_contradicting_classes_lets_one_prevail() {
    assert_eq!(parts(&class(1, 4).merge(&class(0, 6))), pair(9, 12));
    assert_eq!(parts(&class(1, 4).merge(&class(2, 6))), pair(5, 12));
    assert_eq!(parts(&class(2, 6).merge(&class(1, 4))), pair(5, 12));
}

#[test]
fn try_merge_refuses_contradicting_classes() {
    for ((r0, m0), (r1, m1)) in [((1, 4), (0, 6)), ((2, 6), (1, 4)), ((1, 4), (2, 4))] {
        let refused = class(r0, m0).try_merge(&class(r1, m1));
        assert_eq!(refused.unwrap_err(), CrtError::InconsistentEvidence);
    }
}

#[test]
fn try_merge_accepts_classes_with_a_common_integer() {
    assert_eq!(parts(&class(3, 4).try_merge(&class(1, 6)).unwrap()), pair(7, 12));
    assert_eq!(parts(&class(2, 3).try_merge(&class(3, 5)).unwrap()), pair(8, 15));
    assert_eq!(parts(&class(5, 12).try_merge(&RemainderValue::new()).unwrap()), pair(5, 12));
}

#[test]
fn try_merge_decides_as_the_residues_modulo_the_common_divisor() {
    for m0 in 1i64..=10 {
        for m1 in 1i64..=10 {
            let g = big(m0).gcd(&big(m1));
            for r0 in 0..m0 {
                for r1 in 0..m1 {
                    let agree = big(r0).mod_floor(&g) == big(r1).mod_floor(&g);
                    let res = class(r0, m0).try_merge(&class(r1, m1));
                    assert_eq!(res.is_ok(), agree, "{} mod {} with {} mod {}", r0, m0, r1, m1);
                    if let Ok(v) = res {
                        assert_eq!(v.residue().mod_floor(&big(m0)), big(r0));
                        assert_eq!(v.residue().mod_floor(&big(m1)), big(r1));
                    }
                }
            }
        }
    }
}

#[test]
fn verify_accepts_the_integers_of_the_class() {
    let v = class(5, 12);
    assert!(v.verify(&big(5)));
    assert!(v.verify(&big(17)));
    assert!(v.verify(&big(1205)));
    assert!(!v.verify(&big(6)));
    assert!(!v.verify(&big(0)));
}

#[test]
fn verify_reduces_a_negative_number_toward_zero() {
    let v = class(-7, 5);
    assert_eq!(parts(&v), pair(3, 5));
    assert!(!v.verify(&big(-7)));
    assert!(v.verify(&big(3)));
    let w = class(-10, 5);
    assert!(w.verify(&big(-10)));
    assert!(w.verify(&big(0)));
}
