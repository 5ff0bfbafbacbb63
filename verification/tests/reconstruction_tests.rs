use cnrt::{merge_all, reconstruct, CrtError, RemainderValue};
use num_bigint::BigInt;
use num_integer::Integer;

fn big(n: i64) -> BigInt {
    BigInt::from(n)
}

fn bigs(ns: &[i64]) -> Vec<BigInt> {
    ns.iter().map(|n| big(*n)).collect()
}

fn parts(v: &RemainderValue) -> (BigInt, BigInt) {
    (v.residue().clone(), v.modulus().clone())
}

fn permutations(items: &[i64]) -> Vec<Vec<i64>> {
    if items.len() <= 1 {
        return vec![items.to_vec()];
    }
    let mut all = Vec::new();
    for i in 0..items.len() {
        let mut rest = items.to_vec();
        let head = rest.remove(i);
        for mut tail in permutations(&rest) {
            tail.insert(0, head);
            all.push(tail);
        }
    }
    all
}

#[test]
fn merge_all_of_nothing_is_the_neutral_element() {
    assert_eq!(parts(&merge_all(&Vec::new())), (big(0), big(1)));
}

#[test]
fn merge_all_of_one_value_is_that_value() {
    let values = vec![RemainderValue::make(&big(5), &big(12))];
    assert_eq!(parts(&merge_all(&values)), (big(5), big(12)));
}

#[test]
fn merge_all_folds_from_the_left() {
    let values = vec![
        RemainderValue::make(&big(1), &big(4)),
        RemainderValue::make(&big(2), &big(6)),
        RemainderValue::make(&big(3), &big(5)),
    ];
    let by_hand = RemainderValue::new().merge(&values[0]).merge(&values[1]).merge(&values[2]);
    assert_eq!(parts(&merge_all(&values)), parts(&by_hand));
    assert_eq!(parts(&merge_all(&values)), (big(53), big(60)));
}

#[test]
fn reconstruct_a_number_from_eight_moduli() {
    let n = "19122025".parse::<BigInt>().unwrap();
    let moduli = bigs(&[32, 12, 28, 77, 93, 121, 17, 711]);
    let result = reconstruct(&n, &moduli).unwrap();
    let lcm = moduli.iter().fold(big(1), |l, m| l.lcm(m));
    assert_eq!(lcm, big(10155787488));
    assert_eq!(result.modulus(), &lcm);
    assert_eq!(result.residue(), &n.mod_floor(&lcm));
    assert_eq!(result.residue(), &n);
    assert!(result.verify(&n));
}

#[test]
fn reconstruct_a_number_larger_than_the_modulus() {
    let n = "123456789012345678901234567890".parse::<BigInt>().unwrap();
    let moduli = bigs(&[32, 12, 28, 77, 93, 121, 17, 711]);
    let result = reconstruct(&n, &moduli).unwrap();
    assert_eq!(result.modulus(), &big(10155787488));
    assert_eq!(result.residue(), &n.mod_floor(&big(10155787488)));
    assert!(result.verify(&n));
}

#[test]
fn reconstruct_a_negative_number() {
    let n = big(-19122025);
    let result = reconstruct(&n, &bigs(&[32, 12, 28])).unwrap();
    assert_eq!(parts(&result), (n.mod_floor(&big(672)), big(672)));
    assert_eq!(parts(&result), (big(407), big(672)));
}

#[test]
fn reconstruct_from_no_moduli() {
    assert_eq!(parts(&reconstruct(&big(77), &Vec::new()).unwrap()), (big(0), big(1)));
}

#[test]
fn reconstruct_in_every_order() {
    for n in [19122025i64, -4711, 0, 59] {
        for order in permutations(&[4, 6, 10, 15, 9]) {
            let result = reconstruct(&big(n), &bigs(&order)).unwrap();
            assert_eq!(parts(&result), (big(n).mod_floor(&big(180)), big(180)), "{:?}", order);
        }
    }
}

#[test]
fn reconstruct_ignores_repeated_moduli_and_modulus_one() {
    let n = big(1000);
    let plain = reconstruct(&n, &bigs(&[8, 12])).unwrap();
    let padded = reconstruct(&n, &bigs(&[1, 8, 8, 1, 12, 8, 1])).unwrap();
    assert_eq!(parts(&plain), (big(16), big(24)));
    assert_eq!(parts(&padded), parts(&plain));
}

#[test]
fn reconstruct_refuses_a_modulus_below_one() {
    for moduli in [vec![3, 0, 5], vec![-3], vec![3, 5, -1]] {
        let refused = reconstruct(&big(5), &bigs(&moduli));
        assert_eq!(refused.unwrap_err(), CrtError::NonPositiveModulus);
    }
}

#[test]
fn reconstruct_agrees_with_merge_all() {
    let n = big(19122025);
    let moduli = bigs(&[32, 12, 28, 77]);
    let values: Vec<RemainderValue> = moduli.iter().map(|m| RemainderValue::make(&n, m)).collect();
    assert_eq!(parts(&reconstruct(&n, &moduli).unwrap()), parts(&merge_all(&values)));
    assert_eq!(parts(&merge_all(&values)), (big(6313), big(7392)));
}
