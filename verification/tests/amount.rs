use cala_projector::balance::amount::{Amount, MAX_MANTISSA};

fn amount(mantissa: i128, scale: u32) -> Amount {
    Amount { mantissa, scale }
}

#[test]
fn sums_of_one_scale_are_exact() {
    assert_eq!(amount(1290, 0).checked_add(amount(1290, 0)), Some(amount(2580, 0)));
    assert_eq!(amount(105, 2).checked_add(amount(-5, 2)), Some(amount(100, 2)));
    assert_eq!(amount(-7, 0).checked_add(amount(-8, 0)), Some(amount(-15, 0)));
}

#[test]
fn sums_take_the_larger_scale() {
    assert_eq!(amount(15, 1).checked_add(amount(25, 2)), Some(amount(175, 2)));
    assert_eq!(amount(25, 2).checked_add(amount(15, 1)), Some(amount(175, 2)));
    assert_eq!(amount(1, 28).checked_add(amount(1, 0)), Some(amount(10_i128.pow(28) + 1, 28)));
}

#[test]
fn zero_is_neutral() {
    assert_eq!(Amount::zero(), amount(0, 0));
    assert_eq!(Amount::zero().checked_add(amount(1290, 3)), Some(amount(1290, 3)));
    assert_eq!(amount(1290, 3).checked_add(Amount::zero()), Some(amount(1290, 3)));
    assert_eq!(amount(0, 5).checked_add(amount(1290, 3)), Some(amount(1290, 3)));
    assert_eq!(amount(1290, 3).checked_add(amount(0, 5)), Some(amount(1290, 3)));
    assert_eq!(amount(0, 5).checked_add(amount(0, 3)), Some(amount(0, 3)));
}

#[test]
fn a_sum_of_nothing_keeps_the_larger_scale() {
    assert_eq!(amount(5, 1).checked_add(amount(-50, 2)), Some(amount(0, 2)));
    assert_eq!(amount(5, 0).checked_add(amount(-5, 0)), Some(amount(0, 0)));
}

#[test]
fn sums_up_to_the_largest_mantissa_are_exact() {
    assert_eq!(
        amount(MAX_MANTISSA - 1, 0).checked_add(amount(1, 0)),
        Some(amount(MAX_MANTISSA, 0))
    );
    assert_eq!(
        amount(-MAX_MANTISSA, 28).checked_add(amount(MAX_MANTISSA, 28)),
        Some(amount(0, 28))
    );
}

#[test]
fn sums_that_do_not_fit_are_missing() {
    assert_eq!(amount(MAX_MANTISSA, 0).checked_add(amount(1, 0)), None);
    assert_eq!(amount(-MAX_MANTISSA, 0).checked_add(amount(-1, 0)), None);
}

#[test]
fn amounts_that_are_not_representable_have_no_sum() {
    assert_eq!(amount(1, 29).checked_add(amount(1, 0)), None);
    assert_eq!(amount(1, 0).checked_add(amount(1, 29)), None);
    assert_eq!(amount(MAX_MANTISSA + 1, 0).checked_add(amount(0, 0)), None);
    assert_eq!(amount(0, 0).checked_add(amount(-MAX_MANTISSA - 1, 0)), None);
}

#[test]
fn large_sums_that_cancel_need_no_rounding() {
    let large = amount(MAX_MANTISSA, 0).checked_add(amount(-MAX_MANTISSA, 0)).unwrap();
    assert_eq!(large.checked_add(amount(1, 1)), Some(amount(1, 1)));
}
