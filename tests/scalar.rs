use rabe::scalar::{Scalar, ORDER_HI, ORDER_LO};

#[test]
fn subtraction_wraps_below_zero() {
    let minus_one = Scalar::zero().sub(&Scalar::one());
    let expected = Scalar::from_halves(ORDER_HI, ORDER_LO - 1).unwrap();
    assert!(minus_one.equals(&expected));
    assert!(minus_one.add(&Scalar::one()).equals(&Scalar::zero()));
}

#[test]
fn addition_reduces_at_the_order() {
    let minus_one = Scalar::from_halves(ORDER_HI, ORDER_LO - 1).unwrap();
    let two = Scalar::from_u64(2);
    assert!(minus_one.add(&two).equals(&Scalar::one()));
    assert!(Scalar::from_u64(3).add(&Scalar::from_u64(4)).equals(&Scalar::from_u64(7)));
    assert!(Scalar::from_u64(9).sub(&Scalar::from_u64(4)).equals(&Scalar::from_u64(5)));
}

#[test]
fn carries_between_halves() {
    let low_max = Scalar::from_halves(0, u128::MAX).unwrap();
    let sum = low_max.add(&Scalar::one());
    assert!(sum.equals(&Scalar::from_halves(1, 0).unwrap()));
    assert!(sum.sub(&Scalar::one()).equals(&low_max));
}

#[test]
fn halves_at_or_above_the_order_are_refused() {
    assert!(Scalar::from_halves(ORDER_HI, ORDER_LO).is_none());
    assert!(Scalar::from_halves(u128::MAX, 0).is_none());
    assert!(Scalar::from_halves(ORDER_HI - 1, u128::MAX).is_some());
}

#[test]
fn negation_cancels() {
    let x = Scalar::random();
    assert!(x.add(&x.neg()).equals(&Scalar::zero()));
    assert!(Scalar::zero().neg().equals(&Scalar::zero()));
}

#[test]
fn random_scalars_differ() {
    assert!(!Scalar::random().equals(&Scalar::random()));
}
