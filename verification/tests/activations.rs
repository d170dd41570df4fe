//! Elementwise activation policies: exact fixed-point behavior.

use stacknet::activation::{Activation, ReLu, Sigmoid};
use stacknet::fixed::ONE;

fn fixed_mul(a: i64, b: i64) -> i64 {
    let p = (a as i128) * (b as i128);
    if p >= 0 {
        (p / 65536) as i64
    } else {
        -((-p) / 65536) as i64
    }
}

#[test]
fn sigmoid_strictly_inside_unit_interval() {
    let big: i64 = ONE * 1_000_000;
    for x in [-big, -20 * ONE, -ONE, -1, 0, 1, ONE, 20 * ONE, big] {
        let y = Sigmoid::activate(x);
        assert!(y > 0, "sigmoid({x}) = {y} must be positive");
        assert!(y < ONE, "sigmoid({x}) = {y} must stay below one");
    }
}

#[test]
fn sigmoid_is_monotone_through_zero() {
    assert_eq!(Sigmoid::activate(0), ONE / 2);
    assert!(Sigmoid::activate(2 * ONE) > Sigmoid::activate(0));
    assert!(Sigmoid::activate(-2 * ONE) < Sigmoid::activate(0));
    assert!(Sigmoid::activate(20 * ONE) > (9 * ONE) / 10);
    assert!(Sigmoid::activate(-20 * ONE) < ONE / 10);
}

#[test]
fn sigmoid_derivative_is_y_times_one_minus_y() {
    for y in [1, 655, 16384, 32768, 49152, ONE - 1] {
        assert_eq!(Sigmoid::derivate(y), fixed_mul(y, ONE - y));
    }
    assert_eq!(Sigmoid::derivate(16384), 12288);
    assert_eq!(Sigmoid::derivate(32768), 16384);
}

#[test]
fn relu_activate_is_identity_on_nonnegatives() {
    assert_eq!(ReLu::activate(5 * ONE), 5 * ONE);
    assert_eq!(ReLu::activate(1), 1);
    assert_eq!(ReLu::activate(0), 0);
    assert_eq!(ReLu::activate(-1), 0);
    assert_eq!(ReLu::activate(-3 * ONE), 0);
}

#[test]
fn relu_derivative_is_leaky() {
    assert_eq!(ReLu::derivate(ONE), ONE);
    assert_eq!(ReLu::derivate(1), ONE);
    assert_eq!(ReLu::derivate(0), 655);
    assert_eq!(ReLu::derivate(-ONE), 655);
}
