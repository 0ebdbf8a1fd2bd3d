use immich_cli::naturals::{Natural, MAX_FACTOR};

/// `1 * 2 * .. * n`.
fn factorial(n: u128) -> Natural {
    let mut out = Natural::one();
    for k in 1..=n {
        out = out.times(k);
    }
    out
}

fn equal(a: &Natural, b: &Natural) -> bool {
    !a.less(b) && !b.less(a)
}

#[test]
fn products_do_not_depend_on_the_order() {
    let up = factorial(100);
    let mut down = Natural::one();
    for k in (1..=100u128).rev() {
        down = down.times(k);
    }
    assert!(equal(&up, &down));
    assert!(up.less(&factorial(101)));
    assert!(!up.less(&factorial(99)));
}

#[test]
fn sums_carry_over() {
    let big = Natural::one().times(u32::MAX as u128);
    let next = big.plus(&Natural::one());
    assert!(equal(&next, &Natural::one().times(1 << 32)));
    assert!(big.less(&next));
    assert!(equal(&factorial(5).plus(&factorial(4)), &Natural::one().times(144)));
}

#[test]
fn zero_is_the_least() {
    let zero = Natural::zero();
    assert!(zero.less(&Natural::one()));
    assert!(equal(&factorial(30).times(0), &zero));
    assert!(equal(&zero.plus(&Natural::one()), &Natural::one()));
}

#[test]
fn large_factors_are_exact() {
    let a = Natural::one().times(MAX_FACTOR).times(3);
    let one = Natural::one().times(MAX_FACTOR);
    let b = one.plus(&one).plus(&one);
    assert!(equal(&a, &b));
}
