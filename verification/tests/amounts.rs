use ledger_model::amount::{MAX_MANTISSA, MAX_SCALE};
use ledger_model::Amount;
use rust_decimal::Decimal;

fn decimal_of(amount: Amount) -> Decimal {
    Decimal::from_i128_with_scale(amount.mantissa(), amount.scale())
}

fn amount_of(decimal: Decimal) -> Amount {
    Amount::try_new(decimal.mantissa(), decimal.scale()).unwrap()
}

#[test]
fn new_keeps_both_integers() {
    let a = Amount::new(-1234, 3);
    assert_eq!(a.mantissa(), -1234);
    assert_eq!(a.scale(), 3);
    assert_eq!(decimal_of(a), Decimal::new(-1234, 3));
}

#[test]
fn zero_is_zero_without_digits() {
    let z = Amount::zero();
    assert_eq!(z.mantissa(), 0);
    assert_eq!(z.scale(), 0);
    assert_eq!(z, amount_of(Decimal::ZERO));
}

#[test]
fn try_new_accepts_the_whole_range() {
    assert_eq!(Amount::try_new(MAX_MANTISSA, MAX_SCALE).unwrap().mantissa(), MAX_MANTISSA);
    assert_eq!(Amount::try_new(-MAX_MANTISSA, 0).unwrap().mantissa(), -MAX_MANTISSA);
    assert_eq!(decimal_of(Amount::try_new(MAX_MANTISSA, 0).unwrap()), Decimal::MAX);
    assert_eq!(decimal_of(Amount::try_new(-MAX_MANTISSA, 0).unwrap()), Decimal::MIN);
}

#[test]
fn try_new_refuses_what_does_not_fit() {
    assert_eq!(Amount::try_new(MAX_MANTISSA + 1, 0), None);
    assert_eq!(Amount::try_new(-MAX_MANTISSA - 1, 0), None);
    assert_eq!(Amount::try_new(1, MAX_SCALE + 1), None);
    assert_eq!(Amount::try_new(i128::MAX, 0), None);
    assert_eq!(Amount::try_new(i128::MIN, 0), None);
}

#[test]
fn equality_is_by_digits() {
    assert_eq!(Amount::new(10, 1), Amount::new(10, 1));
    assert_ne!(Amount::new(10, 1), Amount::new(1, 0));
    assert_ne!(Amount::new(10, 1), Amount::new(100, 2));
}

#[test]
fn sum_of_equal_scales() {
    let sum = Amount::new(125, 2).checked_add(Amount::new(375, 2));
    assert_eq!(sum, Some(Amount::new(500, 2)));
}

#[test]
fn sum_takes_the_longer_scale() {
    let sum = Amount::new(1000, 0).checked_add(Amount::new(5, 4));
    assert_eq!(sum, Some(Amount::new(10000005, 4)));
    let sum = Amount::new(5, 4).checked_add(Amount::new(1000, 0));
    assert_eq!(sum, Some(Amount::new(10000005, 4)));
}

#[test]
fn sum_of_opposite_signs() {
    let sum = Amount::new(5090, 2).checked_add(Amount::new(-9, 1));
    assert_eq!(sum, Some(Amount::new(5000, 2)));
    let sum = Amount::new(-50000, 0).checked_add(Amount::new(50000, 0));
    assert_eq!(sum, Some(Amount::new(0, 0)));
    let sum = Amount::new(3, 1).checked_add(Amount::new(-10, 0));
    assert_eq!(sum, Some(Amount::new(-97, 1)));
}

#[test]
fn adding_zero_changes_nothing() {
    let a = Amount::new(1234, 2);
    assert_eq!(a.checked_add(Amount::zero()), Some(a));
    assert_eq!(Amount::zero().checked_add(a), Some(a));
    assert_eq!(a.checked_add(Amount::new(0, 5)), Some(a));
    assert_eq!(Amount::new(0, 5).checked_add(a), Some(a));
    assert_eq!(Amount::new(0, 5).checked_add(Amount::new(0, 2)), Some(Amount::new(0, 2)));
    assert_eq!(Amount::new(0, 2).checked_add(Amount::zero()), Some(Amount::zero()));
}

#[test]
fn sum_out_of_range_is_none() {
    let max = Amount::try_new(MAX_MANTISSA, 0).unwrap();
    let min = Amount::try_new(-MAX_MANTISSA, 0).unwrap();
    assert_eq!(max.checked_add(max), None);
    assert_eq!(max.checked_add(Amount::new(1, 0)), None);
    assert_eq!(min.checked_add(min), None);
    assert_eq!(min.checked_add(Amount::new(-1, 0)), None);
    assert_eq!(max.checked_add(min), Some(Amount::zero()));
}

#[test]
fn sum_drops_digits_where_only_that_makes_it_fit() {
    let big = Amount::try_new(MAX_MANTISSA, 1).unwrap();
    let sum = big.checked_add(big).unwrap();
    assert_eq!(sum.scale(), 0);
    assert_eq!(decimal_of(sum), decimal_of(big) + decimal_of(big));
}

#[test]
fn sums_are_those_of_the_decimal_crate() {
    let samples: Vec<(i64, u32)> = vec![
        (0, 0),
        (1, 0),
        (-1, 0),
        (5, 4),
        (100, 0),
        (50000, 0),
        (-50000, 0),
        (5090, 2),
        (-9, 1),
        (42, 3),
        (i64::MAX, 0),
        (i64::MIN, 28),
        (999999999, 9),
        (4294967295, 0),
        (4294967296, 20),
        (-7, 28),
    ];
    for (m1, s1) in samples.iter() {
        for (m2, s2) in samples.iter() {
            let ours = Amount::new(*m1, *s1).checked_add(Amount::new(*m2, *s2));
            let theirs = Decimal::new(*m1, *s1).checked_add(Decimal::new(*m2, *s2));
            match (ours, theirs) {
                (Some(a), Some(d)) => {
                    assert_eq!(a.mantissa(), d.mantissa());
                    assert_eq!(a.scale(), d.scale());
                }
                (None, None) => {}
                _ => panic!("the sums of {m1}e-{s1} and {m2}e-{s2} differ"),
            }
        }
    }
}

#[test]
fn sums_on_the_short_path_are_exact() {
    let mantissas: Vec<i128> = vec![
        1,
        -1,
        9,
        -50000,
        4294967295,
        4294967296,
        -4294967297,
        999999999999,
        18446744073709551615,
        -18446744073709551615,
        18446744073709551614,
        7922816251426433759,
    ];
    let scales: Vec<u32> = vec![0, 1, 4, 9, 10, 19, 20, 28];
    let mut exact_sums = 0;
    for m1 in mantissas.iter() {
        for m2 in mantissas.iter() {
            for s1 in scales.iter() {
                for s2 in scales.iter() {
                    let longer = *s1.max(s2);
                    if longer - *s1.min(s2) > 19 {
                        continue;
                    }
                    let exact = m1 * 10i128.pow(longer - s1) + m2 * 10i128.pow(longer - s2);
                    if exact > MAX_MANTISSA || exact < -MAX_MANTISSA {
                        continue;
                    }
                    let a = Amount::try_new(*m1, *s1).unwrap();
                    let b = Amount::try_new(*m2, *s2).unwrap();
                    let sum = a.checked_add(b).unwrap();
                    assert_eq!(sum.mantissa(), exact);
                    assert_eq!(sum.scale(), longer);
                    exact_sums += 1;
                }
            }
        }
    }
    assert!(exact_sums > 5000);
}

#[test]
fn sum_at_the_edge_of_the_short_path() {
    let a = Amount::try_new(18446744073709551615, 0).unwrap();
    let b = Amount::try_new(18446744073709551615, 9).unwrap();
    let sum = a.checked_add(b).unwrap();
    assert_eq!(sum.mantissa(), 18446744073709551615 * 1000000000 + 18446744073709551615);
    assert_eq!(sum.scale(), 9);
    let c = Amount::try_new(MAX_MANTISSA - 1, 5).unwrap();
    let d = Amount::new(1, 5);
    assert_eq!(d.checked_add(Amount::new(-1, 5)), Some(Amount::new(0, 5)));
    assert_eq!(decimal_of(c.checked_add(d).unwrap()), decimal_of(c) + decimal_of(d));
}
