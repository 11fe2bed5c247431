//! Property evaluator behaviour.

use cea_rs::fx::{Fx, SCALE};
use cea_rs::thermo::{properties, EvalError, Phase, Segment, Species};

fn name16(s: &str) -> Vec<u8> {
    let mut v = s.as_bytes().to_vec();
    while v.len() < 16 {
        v.push(b' ');
    }
    v
}

fn fxf(x: f64) -> Fx {
    Fx { v: (x * SCALE as f64) as i64 }
}

fn zero_seg(t_low: f64, t_high: f64) -> Segment {
    Segment {
        t_low: fxf(t_low),
        t_high: fxf(t_high),
        a1: Fx::zero(),
        a2: Fx::zero(),
        a3: Fx::zero(),
        a4: Fx::zero(),
        a5: Fx::zero(),
        a6: Fx::zero(),
        a7: Fx::zero(),
        b1: Fx::zero(),
        b2: Fx::zero(),
    }
}

/// Gas species with constant Cp/R = 3.5 over [200, 2000] K and zero
/// formation enthalpy and entropy constants.
fn single() -> Species {
    let mut seg = zero_seg(200.0, 2000.0);
    seg.a3 = fxf(3.5);
    Species { name: name16("Single"), phase: Phase::Gas, mw: fxf(28.0), segments: vec![seg] }
}

#[test]
fn constant_cp_exact_values() {
    let sp = single();
    let p = properties(&sp, fxf(300.0)).unwrap();
    // Cp/R = 3.5 exactly in fixed point (only the constant term is set).
    assert_eq!(p.cp.v, (7 * SCALE) / 2);
    // H/RT = 3.5 exactly (zero enthalpy constant).
    assert_eq!(p.h.v, (7 * SCALE) / 2);
    // S/R = 3.5 ln(300) approximately.
    let want = 3.5 * 300.0f64.ln();
    let got = p.s.v as f64 / SCALE as f64;
    assert!((got - want).abs() < 1e-5, "S/R: got {got}, want {want}");
}

#[test]
fn properties_deterministic_bit_for_bit() {
    let sp = single();
    let t = fxf(512.75);
    let p1 = properties(&sp, t).unwrap();
    let p2 = properties(&sp, t).unwrap();
    assert_eq!(p1.cp.v, p2.cp.v);
    assert_eq!(p1.h.v, p2.h.v);
    assert_eq!(p1.s.v, p2.s.v);
}

#[test]
fn out_of_range_no_extrapolation() {
    // Segments only cover up to 2000 K; 5000 K must fail, not
    // extrapolate.
    let sp = single();
    match properties(&sp, fxf(5000.0)) {
        Err(EvalError::OutOfRange) => {},
        other => panic!("expected OutOfRange, got {other:?}"),
    }
    match properties(&sp, fxf(100.0)) {
        Err(EvalError::OutOfRange) => {},
        other => panic!("expected OutOfRange, got {other:?}"),
    }
}

#[test]
fn segment_selection_first_match() {
    // Two contiguous segments with different constants; the boundary
    // temperature belongs to the earlier one.
    let mut s1 = zero_seg(200.0, 1000.0);
    s1.a3 = fxf(3.5);
    let mut s2 = zero_seg(1000.0, 6000.0);
    s2.a3 = fxf(4.5);
    let sp = Species {
        name: name16("Two"),
        phase: Phase::Gas,
        mw: fxf(30.0),
        segments: vec![s1, s2],
    };
    let lo = properties(&sp, fxf(500.0)).unwrap();
    assert_eq!(lo.cp.v, (7 * SCALE) / 2);
    let border = properties(&sp, fxf(1000.0)).unwrap();
    assert_eq!(border.cp.v, (7 * SCALE) / 2);
    let hi = properties(&sp, fxf(2000.0)).unwrap();
    assert_eq!(hi.cp.v, (9 * SCALE) / 2);
}

#[test]
fn full_polynomial_matches_reference() {
    // All seven coefficients set, checked against the same formulas in
    // double precision.  The raw coefficient values divide evenly by
    // 2, 3, 4 and 5, so the integrated forms lose nothing to the
    // fixed-point scalar divisions.
    let raw = [
        22000i64 * SCALE, // a1
        -300 * SCALE,     // a2
        24051816857,      // a3 ~ 5.6
        -8388600,         // a4 ~ -1.95e-3
        16380,            // a5 ~ 3.81e-6
        -4200,            // a6 ~ -9.78e-7
        3840,             // a7 ~ 8.94e-7
    ];
    let b1 = -1200.0;
    let b2 = 7.5;
    let a: Vec<f64> = raw.iter().map(|&r| r as f64 / SCALE as f64).collect();
    let mut seg = zero_seg(200.0, 6000.0);
    seg.a1 = Fx { v: raw[0] };
    seg.a2 = Fx { v: raw[1] };
    seg.a3 = Fx { v: raw[2] };
    seg.a4 = Fx { v: raw[3] };
    seg.a5 = Fx { v: raw[4] };
    seg.a6 = Fx { v: raw[5] };
    seg.a7 = Fx { v: raw[6] };
    seg.b1 = fxf(b1);
    seg.b2 = fxf(b2);
    let sp = Species { name: name16("Rich"), phase: Phase::Gas, mw: fxf(30.0), segments: vec![seg] };
    for &t in &[300.0f64, 1000.0, 1500.0, 3000.0] {
        let p = properties(&sp, fxf(t)).unwrap();
        let cp_ref = a[0] / (t * t) + a[1] / t + a[2] + a[3] * t + a[4] * t * t
            + a[5] * t * t * t + a[6] * t * t * t * t;
        let h_ref = -a[0] / (t * t) + a[1] * t.ln() / t + a[2] + a[3] * t / 2.0
            + a[4] * t * t / 3.0 + a[5] * t * t * t / 4.0 + a[6] * t * t * t * t / 5.0
            + b1 / t;
        let s_ref = -a[0] / (2.0 * t * t) - a[1] / t + a[2] * t.ln() + a[3] * t
            + a[4] * t * t / 2.0 + a[5] * t * t * t / 3.0 + a[6] * t * t * t * t / 4.0 + b2;
        let cp = p.cp.v as f64 / SCALE as f64;
        let h = p.h.v as f64 / SCALE as f64;
        let s = p.s.v as f64 / SCALE as f64;
        assert!((cp - cp_ref).abs() < 1e-4 * cp_ref.abs().max(1.0), "Cp at {t}: {cp} vs {cp_ref}");
        assert!((h - h_ref).abs() < 1e-4 * h_ref.abs().max(1.0), "H at {t}: {h} vs {h_ref}");
        assert!((s - s_ref).abs() < 1e-4 * s_ref.abs().max(1.0), "S at {t}: {s} vs {s_ref}");
    }
}
