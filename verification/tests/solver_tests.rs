//! Equilibrium solver and driver behaviour.

use cea_rs::driver::{solve_sequence, Condition, Sweep};
use cea_rs::fx::{Fx, SCALE};
use cea_rs::solver::{solve, Element, MixtureState, Outcome, ProblemKind, SolverConfig};
use cea_rs::thermo::{Phase, Segment, Species};

fn name16(s: &str) -> Vec<u8> {
    let mut v = s.as_bytes().to_vec();
    while v.len() < 16 {
        v.push(b' ');
    }
    v
}

fn fxf(x: f64) -> Fx {
    Fx { v: (x * SCALE as f64) as i64 }
}

fn f(x: Fx) -> f64 {
    x.v as f64 / SCALE as f64
}

fn const_cp_species(name: &str, cp: f64, b1: f64, b2: f64, phase: Phase) -> Species {
    let seg = Segment {
        t_low: fxf(200.0),
        t_high: fxf(2000.0),
        a1: Fx::zero(),
        a2: Fx::zero(),
        a3: fxf(cp),
        a4: Fx::zero(),
        a5: Fx::zero(),
        a6: Fx::zero(),
        a7: Fx::zero(),
        b1: fxf(b1),
        b2: fxf(b2),
    };
    Species { name: name16(name), phase, mw: fxf(28.0), segments: vec![seg] }
}

fn one_element() -> Vec<Element> {
    vec![Element { symbol: b"N".to_vec(), weight: fxf(14.0) }]
}

/// One gas species holding one element, 1 mole of the element at
/// P = 1 atm, T = 300 K: the solution is 1.0 mole.
#[test]
fn single_species_unit_moles() {
    let species = vec![const_cp_species("Single", 3.5, 0.0, 0.0, Phase::Gas)];
    let comp = vec![vec![Fx::one()]];
    let mix = MixtureState {
        problem: ProblemKind::FixedTemperature,
        pressure: Fx::one(),
        temperature: fxf(300.0),
        elements: one_element(),
        b0: vec![Fx::one()],
    };
    let cfg = SolverConfig::default();
    let r = solve(&species, &comp, &mix, &cfg, None);
    assert_eq!(r.outcome, Outcome::Converged);
    assert!((f(r.moles[0]) - 1.0).abs() < 1e-4, "moles = {}", f(r.moles[0]));
}

/// Two species with identical Gibbs energy over one element: the
/// element balance must still close exactly within tolerance.
#[test]
fn degenerate_pair_balances() {
    let species = vec![
        const_cp_species("A", 3.5, 0.0, 0.0, Phase::Gas),
        const_cp_species("B", 3.5, 0.0, 0.0, Phase::Gas),
    ];
    let comp = vec![vec![Fx::one()], vec![Fx::one()]];
    let mix = MixtureState {
        problem: ProblemKind::FixedTemperature,
        pressure: Fx::one(),
        temperature: fxf(400.0),
        elements: one_element(),
        b0: vec![Fx::one()],
    };
    let cfg = SolverConfig::default();
    let r = solve(&species, &comp, &mix, &cfg, None);
    assert_eq!(r.outcome, Outcome::Converged);
    let total_element = f(r.moles[0]) + f(r.moles[1]);
    assert!((total_element - 1.0).abs() < 1e-4, "element sum = {total_element}");
}

/// Element conservation on a converged two-element system.
#[test]
fn element_conservation_holds() {
    // Three gas species over two elements.
    let species = vec![
        const_cp_species("X", 3.5, -2.0, 0.5, Phase::Gas),
        const_cp_species("Y", 2.5, -1.0, 1.5, Phase::Gas),
        const_cp_species("XY", 4.5, -4.5, 2.0, Phase::Gas),
    ];
    let comp = vec![
        vec![Fx::one(), Fx::zero()],
        vec![Fx::zero(), Fx::one()],
        vec![Fx::one(), Fx::one()],
    ];
    let mix = MixtureState {
        problem: ProblemKind::FixedTemperature,
        pressure: Fx::one(),
        temperature: fxf(500.0),
        elements: vec![
            Element { symbol: b"X".to_vec(), weight: fxf(10.0) },
            Element { symbol: b"Y".to_vec(), weight: fxf(20.0) },
        ],
        b0: vec![Fx::one(), fxf(2.0)],
    };
    let cfg = SolverConfig::default();
    let r = solve(&species, &comp, &mix, &cfg, None);
    assert_eq!(r.outcome, Outcome::Converged);
    let x_total = f(r.moles[0]) + f(r.moles[2]);
    let y_total = f(r.moles[1]) + f(r.moles[2]);
    assert!((x_total - 1.0).abs() < 1e-4, "X balance: {x_total}");
    assert!((y_total - 2.0).abs() < 1e-4, "Y balance: {y_total}");
}

/// Re-solving the same state from the same guess gives the same
/// result, bit for bit.
#[test]
fn resolve_is_idempotent() {
    let species = vec![
        const_cp_species("A", 3.5, -1.0, 0.0, Phase::Gas),
        const_cp_species("B", 2.8, -0.5, 0.7, Phase::Gas),
    ];
    let comp = vec![vec![Fx::one()], vec![Fx::one()]];
    let mix = MixtureState {
        problem: ProblemKind::FixedTemperature,
        pressure: Fx::one(),
        temperature: fxf(700.0),
        elements: one_element(),
        b0: vec![fxf(1.5)],
    };
    let cfg = SolverConfig::default();
    let r1 = solve(&species, &comp, &mix, &cfg, None);
    let r2 = solve(&species, &comp, &mix, &cfg, None);
    assert_eq!(r1.outcome, Outcome::Converged);
    assert_eq!(r1.outcome, r2.outcome);
    assert_eq!(r1.iterations, r2.iterations);
    for (a, b) in r1.moles.iter().zip(r2.moles.iter()) {
        assert_eq!(a.v, b.v);
    }
    for (a, b) in r1.pi.iter().zip(r2.pi.iter()) {
        assert_eq!(a.v, b.v);
    }
}

/// A sweep of adjacent points converges in fewer total iterations than
/// the same points solved independently from the uniform guess.
#[test]
fn continuation_saves_iterations() {
    let species = vec![
        const_cp_species("A", 3.5, -1.0, 0.0, Phase::Gas),
        const_cp_species("B", 2.8, -0.5, 0.7, Phase::Gas),
    ];
    let comp = vec![vec![Fx::one()], vec![Fx::one()]];
    let mut mix = MixtureState {
        problem: ProblemKind::FixedTemperature,
        pressure: Fx::one(),
        temperature: fxf(700.0),
        elements: one_element(),
        b0: vec![fxf(1.5)],
    };
    let cfg = SolverConfig::default();
    let conditions: Vec<Condition> = (0..6)
        .map(|k| Condition {
            problem: ProblemKind::FixedTemperature,
            pressure: Fx::one(),
            temperature: fxf(700.0 + 10.0 * k as f64),
        })
        .collect();
    let swept = solve_sequence(&species, &comp, &mut mix, &conditions, &cfg);
    assert_eq!(swept.len(), conditions.len());
    let mut swept_total = 0usize;
    for r in &swept {
        assert_eq!(r.outcome, Outcome::Converged);
        swept_total += r.iterations;
    }
    let mut indep_total = 0usize;
    for c in &conditions {
        mix.pressure = c.pressure;
        mix.temperature = c.temperature;
        let r = solve(&species, &comp, &mix, &cfg, None);
        assert_eq!(r.outcome, Outcome::Converged);
        indep_total += r.iterations;
    }
    assert!(
        swept_total < indep_total,
        "sweep used {swept_total} iterations, independent solves {indep_total}"
    );
}

/// The stepwise sweep produces the same leading results and may be
/// stopped between points.
#[test]
fn sweep_steps_lazily() {
    let species = vec![const_cp_species("A", 3.5, 0.0, 0.0, Phase::Gas)];
    let comp = vec![vec![Fx::one()]];
    let mut mix = MixtureState {
        problem: ProblemKind::FixedTemperature,
        pressure: Fx::one(),
        temperature: fxf(300.0),
        elements: one_element(),
        b0: vec![Fx::one()],
    };
    let cfg = SolverConfig::default();
    let conditions = vec![
        Condition { problem: ProblemKind::FixedTemperature, pressure: Fx::one(), temperature: fxf(300.0) },
        Condition { problem: ProblemKind::FixedTemperature, pressure: Fx::one(), temperature: fxf(400.0) },
        Condition { problem: ProblemKind::FixedTemperature, pressure: Fx::one(), temperature: fxf(500.0) },
    ];
    let mut sweep = Sweep::new(conditions);
    assert_eq!(sweep.remaining(), 3);
    let first = sweep.step(&species, &comp, &mut mix, &cfg, None).unwrap();
    assert_eq!(first.outcome, Outcome::Converged);
    assert_eq!(sweep.remaining(), 2);
    // Continuation through the stepwise interface.
    let second = sweep.step(&species, &comp, &mut mix, &cfg, Some(&first)).unwrap();
    assert_eq!(second.outcome, Outcome::Converged);
    // Cancelled here, between points: two of three conditions solved.
    assert_eq!(sweep.remaining(), 1);
}

/// A mixture with no condensible element content keeps the condensed
/// candidate out; one with matching potentials brings it in only
/// within the cap.
#[test]
fn singular_system_is_flagged() {
    // One gas species that carries none of the element: the element
    // balance row is all zeros and the system is singular.
    let species = vec![const_cp_species("A", 3.5, 0.0, 0.0, Phase::Gas)];
    let comp = vec![vec![Fx::zero()]];
    let mix = MixtureState {
        problem: ProblemKind::FixedTemperature,
        pressure: Fx::one(),
        temperature: fxf(300.0),
        elements: one_element(),
        b0: vec![Fx::one()],
    };
    let cfg = SolverConfig::default();
    let r = solve(&species, &comp, &mix, &cfg, None);
    match r.outcome {
        Outcome::Singular(col) => assert_eq!(col, 0),
        other => panic!("expected a singular flag, got {other:?}"),
    }
    // The diagnostic result still carries a composition vector.
    assert_eq!(r.moles.len(), 1);
}

/// An unreachable tolerance exhausts the iteration cap and is reported
/// as such, never silently dropped.
#[test]
fn iteration_cap_is_reported() {
    let species = vec![
        const_cp_species("A", 3.5, -1.0, 0.0, Phase::Gas),
        const_cp_species("B", 2.8, -0.5, 0.7, Phase::Gas),
    ];
    let comp = vec![vec![Fx::one()], vec![Fx::one()]];
    let mix = MixtureState {
        problem: ProblemKind::FixedTemperature,
        pressure: Fx::one(),
        temperature: fxf(700.0),
        elements: one_element(),
        b0: vec![fxf(1.5)],
    };
    let mut cfg = SolverConfig::default();
    cfg.max_iter = 1;
    let r = solve(&species, &comp, &mix, &cfg, None);
    assert_eq!(r.outcome, Outcome::MaxIterationsExceeded);
    assert_eq!(r.iterations, 1);
}

/// An enthalpy-fixed point: with constant Cp/R = 3.5 and no formation
/// enthalpy, H/R = 3.5 n T, so fixing H0/R = 2100 with one mole of the
/// element solves to T = 600 K.
#[test]
fn enthalpy_fixed_point_finds_temperature() {
    let species = vec![const_cp_species("Single", 3.5, 0.0, 0.0, Phase::Gas)];
    let comp = vec![vec![Fx::one()]];
    let mix = MixtureState {
        problem: ProblemKind::FixedEnthalpy(fxf(2100.0)),
        pressure: Fx::one(),
        temperature: fxf(400.0),
        elements: one_element(),
        b0: vec![Fx::one()],
    };
    let cfg = SolverConfig::default();
    let r = solve(&species, &comp, &mix, &cfg, None);
    assert_eq!(r.outcome, Outcome::Converged);
    assert!((f(r.moles[0]) - 1.0).abs() < 1e-4, "moles = {}", f(r.moles[0]));
    let t = f(r.temperature);
    assert!((t - 600.0).abs() < 0.05, "temperature = {t}");
}

/// A fixed-temperature result reports the assigned temperature.
#[test]
fn fixed_t_result_carries_temperature() {
    let species = vec![const_cp_species("Single", 3.5, 0.0, 0.0, Phase::Gas)];
    let comp = vec![vec![Fx::one()]];
    let mix = MixtureState {
        problem: ProblemKind::FixedTemperature,
        pressure: Fx::one(),
        temperature: fxf(300.0),
        elements: one_element(),
        b0: vec![Fx::one()],
    };
    let cfg = SolverConfig::default();
    let r = solve(&species, &comp, &mix, &cfg, None);
    assert_eq!(r.outcome, Outcome::Converged);
    assert_eq!(r.temperature.v, fxf(300.0).v);
}

/// A condensed form far more stable than its gas enters through the
/// activity criterion and takes nearly all of its element, while an
/// inert gas keeps the gas phase substantial.
#[test]
fn condensed_phase_activates() {
    // A(s)'s entropy constant lowers its Gibbs energy by 10
    // (nondimensional) below gaseous A at every temperature.
    let species = vec![
        const_cp_species("A", 3.5, 0.0, 0.0, Phase::Gas),
        const_cp_species("B", 3.5, 0.0, 0.0, Phase::Gas),
        const_cp_species("A(s)", 3.5, 0.0, 10.0, Phase::Condensed),
    ];
    let comp = vec![
        vec![Fx::one(), Fx::zero()],
        vec![Fx::zero(), Fx::one()],
        vec![Fx::one(), Fx::zero()],
    ];
    let mix = MixtureState {
        problem: ProblemKind::FixedTemperature,
        pressure: Fx::one(),
        temperature: fxf(500.0),
        elements: vec![
            Element { symbol: b"A".to_vec(), weight: fxf(10.0) },
            Element { symbol: b"B".to_vec(), weight: fxf(20.0) },
        ],
        b0: vec![Fx::one(), Fx::one()],
    };
    let cfg = SolverConfig::default();
    let r = solve(&species, &comp, &mix, &cfg, None);
    assert_eq!(r.outcome, Outcome::Converged);
    let balance_a = f(r.moles[0]) + f(r.moles[2]);
    assert!((balance_a - 1.0).abs() < 1e-4, "A balance: {balance_a}");
    assert!((f(r.moles[1]) - 1.0).abs() < 1e-4, "B moles = {}", f(r.moles[1]));
    assert!(f(r.moles[2]) > 0.99, "condensed moles = {}", f(r.moles[2]));
    assert!(f(r.moles[0]) < 0.01, "gaseous A moles = {}", f(r.moles[0]));
}

/// A condensed form far less stable than the gas never enters the
/// active set.
#[test]
fn unfavorable_condensed_stays_out() {
    let species = vec![
        const_cp_species("A", 3.5, 0.0, 0.0, Phase::Gas),
        const_cp_species("A(s)", 3.5, 0.0, -10.0, Phase::Condensed),
    ];
    let comp = vec![vec![Fx::one()], vec![Fx::one()]];
    let mix = MixtureState {
        problem: ProblemKind::FixedTemperature,
        pressure: Fx::one(),
        temperature: fxf(500.0),
        elements: one_element(),
        b0: vec![Fx::one()],
    };
    let cfg = SolverConfig::default();
    let r = solve(&species, &comp, &mix, &cfg, None);
    assert_eq!(r.outcome, Outcome::Converged);
    assert_eq!(r.moles[1].v, 0, "condensed stays at zero moles");
    assert!((f(r.moles[0]) - 1.0).abs() < 1e-4, "gas moles = {}", f(r.moles[0]));
}

/// A species whose equilibrium share is far below the trace threshold
/// is dropped from the active set and reported with zero moles.
#[test]
fn trace_species_is_dropped() {
    // C's entropy constant raises its Gibbs energy by 30: its share
    // would be e^-30, far below the trace threshold.
    let species = vec![
        const_cp_species("A", 3.5, 0.0, 0.0, Phase::Gas),
        const_cp_species("C", 3.5, 0.0, -30.0, Phase::Gas),
    ];
    let comp = vec![vec![Fx::one()], vec![Fx::one()]];
    let mix = MixtureState {
        problem: ProblemKind::FixedTemperature,
        pressure: Fx::one(),
        temperature: fxf(600.0),
        elements: one_element(),
        b0: vec![Fx::one()],
    };
    let cfg = SolverConfig::default();
    let r = solve(&species, &comp, &mix, &cfg, None);
    assert_eq!(r.outcome, Outcome::Converged);
    assert_eq!(r.moles[1].v, 0, "trace species must end at zero moles");
    assert!((f(r.moles[0]) - 1.0).abs() < 1e-4, "bulk moles = {}", f(r.moles[0]));
}

/// An entropy-fixed point: with constant Cp/R = 3.5 and zero entropy
/// constant, S/R = 3.5 n ln T, so fixing S0/R = 3.5 ln 600 with one
/// mole of the element solves to T = 600 K.
#[test]
fn entropy_fixed_point_finds_temperature() {
    let species = vec![const_cp_species("Single", 3.5, 0.0, 0.0, Phase::Gas)];
    let comp = vec![vec![Fx::one()]];
    let target = 3.5 * 600.0f64.ln();
    let mix = MixtureState {
        problem: ProblemKind::FixedEntropy(fxf(target)),
        pressure: Fx::one(),
        temperature: fxf(400.0),
        elements: one_element(),
        b0: vec![Fx::one()],
    };
    let cfg = SolverConfig::default();
    let r = solve(&species, &comp, &mix, &cfg, None);
    assert_eq!(r.outcome, Outcome::Converged);
    assert!((f(r.moles[0]) - 1.0).abs() < 1e-4, "moles = {}", f(r.moles[0]));
    let t = f(r.temperature);
    assert!((t - 600.0).abs() < 0.05, "temperature = {t}");
}

/// A volume-fixed point is consistent with the fixed-pressure solve at
/// the pressure it itself produces: a dissociating pair A2 <-> 2A.
#[test]
fn volume_fixed_matches_equivalent_pressure() {
    let species = vec![
        const_cp_species("A", 2.5, -4.0, 1.0, Phase::Gas),
        const_cp_species("A2", 4.0, -11.0, 0.5, Phase::Gas),
    ];
    let comp = vec![vec![Fx::one()], vec![fxf(2.0)]];
    let rt_over_v = fxf(0.8);
    let mix_v = MixtureState {
        problem: ProblemKind::FixedVolume(rt_over_v),
        pressure: Fx::one(),
        temperature: fxf(900.0),
        elements: one_element(),
        b0: vec![Fx::one()],
    };
    let cfg = SolverConfig::default();
    let rv = solve(&species, &comp, &mix_v, &cfg, None);
    assert_eq!(rv.outcome, Outcome::Converged);
    let balance = f(rv.moles[0]) + 2.0 * f(rv.moles[1]);
    assert!((balance - 1.0).abs() < 1e-4, "element balance: {balance}");
    // Re-solve at the assigned pressure P = n RT/V that the volume
    // point settled on: the composition must agree.
    let p_equiv = f(rv.total) * f(rt_over_v);
    let mix_p = MixtureState {
        problem: ProblemKind::FixedTemperature,
        pressure: fxf(p_equiv),
        temperature: fxf(900.0),
        elements: one_element(),
        b0: vec![Fx::one()],
    };
    let rp = solve(&species, &comp, &mix_p, &cfg, None);
    assert_eq!(rp.outcome, Outcome::Converged);
    for (a, b) in rv.moles.iter().zip(rp.moles.iter()) {
        assert!((f(*a) - f(*b)).abs() < 1e-3, "compositions differ: {} vs {}", f(*a), f(*b));
    }
}
