//! Fixed-point arithmetic behaviour.

use cea_rs::fx::{Fx, SCALE};

#[test]
fn mul_exact() {
    let a = Fx::from_int(3);
    let b = Fx::from_int(7);
    assert_eq!(a.mul(b).v, 21 * SCALE);
    let half = Fx::one().divi(2);
    assert_eq!(half.v, SCALE / 2);
    assert_eq!(half.mul(Fx::from_int(8)).v, 4 * SCALE);
}

#[test]
fn add_saturates() {
    let big = Fx { v: i64::MAX };
    assert_eq!(big.add(Fx::one()).v, i64::MAX);
    let small = Fx { v: i64::MIN };
    assert_eq!(small.sub(Fx::one()).v, i64::MIN);
}

#[test]
fn div_by_zero_saturates() {
    assert_eq!(Fx::one().div(Fx::zero()).v, i64::MAX);
    assert_eq!(Fx::from_int(-1).div(Fx::zero()).v, i64::MIN);
}

#[test]
fn exp_ln_round_trip() {
    // exp(ln x) is close to x over a wide range.
    for &x in &[0.001f64, 0.1, 0.5, 1.0, 2.0, 300.0, 2000.0] {
        let fx = Fx { v: (x * SCALE as f64) as i64 };
        let back = fx.ln().exp();
        let got = back.v as f64 / SCALE as f64;
        assert!((got - x).abs() / x < 1e-6, "round trip {x}: got {got}");
    }
}

#[test]
fn exp_of_zero_is_one() {
    let e0 = Fx::zero().exp();
    assert!((e0.v - SCALE).abs() < 8);
}

#[test]
fn ln_of_nonpositive_saturates() {
    assert_eq!(Fx::zero().ln().v, i64::MIN);
    assert_eq!(Fx::from_int(-3).ln().v, i64::MIN);
}

#[test]
fn exp_matches_reference() {
    for &x in &[-5.0f64, -1.0, 0.5, 1.0, 2.0, 10.0] {
        let fx = Fx { v: (x * SCALE as f64) as i64 };
        let got = fx.exp().v as f64 / SCALE as f64;
        let want = x.exp();
        assert!((got - want).abs() / want < 1e-6, "exp {x}: got {got}, want {want}");
    }
}

#[test]
fn exp_is_deterministic() {
    let x = Fx { v: 123456789 };
    assert_eq!(x.exp().v, x.exp().v);
    assert_eq!(x.ln().v, x.ln().v);
}
