use cnrt::{bezout, bezout_recursive, gcd_of};
use num_bigint::BigInt;
use num_integer::Integer;

fn big(n: i64) -> BigInt {
    BigInt::from(n)
}

fn parse(s: &str) -> BigInt {
    s.parse::<BigInt>().unwrap()
}

#[test]
fn bezout_of_small_coprime_pair() {
    let (u, v, c) = bezout(&big(7), &big(5));
    assert_eq!((u, v, c), (big(-2), big(3), big(1)));
}

#[test]
fn bezout_of_a_multiple_and_its_divisor() {
    let (u, v, c) = bezout(&big(12), &big(4));
    assert_eq!((u, v, c), (big(0), big(1), big(4)));
}

#[test]
fn bezout_on_a_large_pair() {
    let x = parse("828342");
    let y = parse("423512344114231524");
    let (u, v, c) = bezout(&x, &y);
    assert_eq!(&u * &x + &v * &y, c);
    assert_eq!(c, x.gcd(&y));
    assert_eq!(c, big(6));
    assert_eq!(u, parse("-30960899616561039"));
    assert_eq!(v, big(60556));
}

#[test]
fn bezout_with_a_zero_argument() {
    assert_eq!(bezout(&big(0), &big(0)), (big(1), big(0), big(0)));
    assert_eq!(bezout(&big(0), &big(5)), (big(0), big(1), big(5)));
    assert_eq!(bezout(&big(5), &big(0)), (big(1), big(0), big(5)));
    assert_eq!(bezout(&big(-5), &big(0)), (big(1), big(0), big(-5)));
}

#[test]
fn bezout_with_negative_arguments() {
    assert_eq!(bezout(&big(4), &big(-6)), (big(1), big(1), big(-2)));
    assert_eq!(bezout(&big(-4), &big(6)), (big(1), big(1), big(2)));
    assert_eq!(bezout(&big(-4), &big(-6)), (big(-1), big(1), big(-2)));
    assert_eq!(bezout(&big(6), &big(-4)), (big(1), big(1), big(2)));
}

#[test]
fn bezout_identity_and_divisor_over_a_grid() {
    for x in -24i64..=24 {
        for y in -24i64..=24 {
            let (bx, by) = (big(x), big(y));
            let (u, v, c) = bezout(&bx, &by);
            assert_eq!(&u * &bx + &v * &by, c, "identity for {} and {}", x, y);
            let magnitude = if c < big(0) { -c } else { c };
            assert_eq!(magnitude, bx.gcd(&by), "divisor for {} and {}", x, y);
        }
    }
}

#[test]
fn bezout_gives_a_positive_divisor_for_positive_arguments() {
    for x in 1i64..=40 {
        for y in 1i64..=40 {
            let (_, _, c) = bezout(&big(x), &big(y));
            assert_eq!(c, big(x).gcd(&big(y)));
        }
    }
}

#[test]
fn bezout_recursive_on_small_pairs() {
    assert_eq!(bezout_recursive(&big(7), &big(5)), (big(3), big(-4), big(1)));
    assert_eq!(bezout_recursive(&big(12), &big(4)), (big(1), big(-2), big(4)));
    assert_eq!(bezout_recursive(&big(9), &big(0)), (big(1), big(0), big(9)));
}

#[test]
fn bezout_recursive_on_a_large_pair() {
    let x = parse("828342");
    let y = parse("423512344114231524");
    let (u, v, c) = bezout_recursive(&x, &y);
    assert_eq!(&u * &x + &v * &y, c);
    assert_eq!(c, big(6));
    assert_eq!(u, parse("39624491069144215"));
    assert_eq!(v, big(-77501));
}

#[test]
fn bezout_recursive_agrees_with_bezout_on_the_divisor() {
    for x in -24i64..=24 {
        for y in -24i64..=24 {
            let (bx, by) = (big(x), big(y));
            let (u, v, c) = bezout_recursive(&bx, &by);
            assert_eq!(&u * &bx + &v * &by, c, "identity for {} and {}", x, y);
            assert_eq!(c, bezout(&bx, &by).2, "divisor for {} and {}", x, y);
        }
    }
}

#[test]
fn gcd_of_drops_the_sign() {
    assert_eq!(gcd_of(&big(4), &big(-6)), big(2));
    assert_eq!(gcd_of(&big(-4), &big(-6)), big(2));
    assert_eq!(gcd_of(&big(-5), &big(0)), big(5));
    assert_eq!(gcd_of(&big(0), &big(0)), big(0));
    assert_eq!(gcd_of(&big(1), &big(0)), big(1));
}

#[test]
fn gcd_of_is_the_greatest_common_divisor_over_a_grid() {
    for x in -30i64..=30 {
        for y in -30i64..=30 {
            assert_eq!(gcd_of(&big(x), &big(y)), big(x).gcd(&big(y)));
        }
    }
}

#[test]
fn gcd_of_large_numbers() {
    let x = parse("123456789012345678901234567890");
    let y = parse("987654321098765432109876543210");
    assert_eq!(gcd_of(&x, &y), x.gcd(&y));
    assert_eq!(gcd_of(&x, &y), parse("9000000000900000000090"));
}
