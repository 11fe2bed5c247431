//! State driver: solves an ordered sequence of condition points.
//!
//! Each point after the first starts from the previous point's
//! converged composition (continuation); after a non-converged point
//! the next one falls back to the uniform initial guess rather than
//! propagating a bad seed.  Every condition yields exactly one result,
//! in order, so a sweep's length always matches its condition count.
//! The stepwise form ([`Sweep`]) produces the results lazily: a caller
//! may stop between points, and a sweep restarts only from its first
//! condition.

use vstd::prelude::*;
use crate::fx::{Fx, fx_mul};
use crate::solver::{
    solve, balance_ok, cond_moles_count, gas_ln_consistent, spec_bscale, EquilibriumResult,
    MixtureState, Outcome, ProblemKind, SolverConfig,
};
use crate::thermo::Species;


verus! {

/// One condition point of a sweep.
#[derive(Clone, Copy, PartialEq, Eq, Structural, Debug)]
pub struct Condition {
    /// Pressure (bar).
    pub pressure: Fx,
    /// Temperature (K): assigned, or the starting estimate of an
    /// enthalpy-fixed point.
    pub temperature: Fx,
    /// What the point fixes besides the pressure.
    pub problem: ProblemKind,
}

/// Whether a point assigns its temperature (directly, or through the
/// volume): for such a point the result reports that temperature back.
pub open spec fn assigns_temperature(p: ProblemKind) -> bool {
    match p {
        ProblemKind::FixedTemperature => true,
        ProblemKind::FixedVolume(_) => true,
        ProblemKind::FixedEnthalpy(_) => false,
        ProblemKind::FixedEntropy(_) => false,
    }
}

/// What the result of one condition point satisfies: one (nonnegative)
/// mole number per candidate species with every positive gas entry the
/// exponential of its ln-moles slot, no more condensed phases holding
/// moles than `max_cond`, no more than `cap` iterations spent (exactly
/// `cap` when the cap was the reason the point stopped), the
/// condition's own temperature reported back when the point assigns
/// it, and element conservation whenever the point converged.
pub open spec fn result_ok(
    species: Seq<Species>,
    comp: Seq<Vec<Fx>>,
    b0: Seq<Fx>,
    tol: int,
    cap: int,
    max_cond: int,
    c: Condition,
    r: EquilibriumResult,
) -> bool {
    &&& r.moles@.len() == comp.len()
    &&& forall|j: int| 0 <= j < r.moles@.len() ==> (#[trigger] r.moles@[j]).v >= 0
    &&& gas_ln_consistent(species, r.moles@, r.ln_moles@)
    &&& cond_moles_count(species, r.moles@, species.len() as int) <= max_cond
    &&& r.iterations <= cap
    &&& (assigns_temperature(c.problem) ==> r.temperature == c.temperature)
    &&& (r.outcome == Outcome::MaxIterationsExceeded ==> r.iterations == cap)
    &&& (r.outcome == Outcome::Converged ==> balance_ok(
        comp,
        r.moles@,
        b0,
        fx_mul(tol, spec_bscale(b0, b0.len() as int)),
    ))
}

/// A lazy sweep over an ordered condition sequence.
pub struct Sweep {
    /// The ordered condition points.
    pub conditions: Vec<Condition>,
    /// Position of the next point to solve.
    pub next: usize,
}

impl Sweep {
    pub fn new(conditions: Vec<Condition>) -> (r: Sweep)
        ensures
            r.conditions@ == conditions@,
            r.next == 0,
    {
        Sweep { conditions, next: 0 }
    }

    /// Conditions not yet solved.
    pub fn remaining(&self) -> (r: usize)
        ensures
            r == self.conditions@.len() - self.next || (self.next > self.conditions@.len() && r
                == 0),
    {
        if self.next >= self.conditions.len() {
            0
        } else {
            self.conditions.len() - self.next
        }
    }

    /// Solves the next condition point, seeding it with `prev` (the
    /// previous converged result) when one is given.  Returns `None`
    /// when the sweep is exhausted; a caller that stops calling has
    /// cancelled the sweep between points.
    pub fn step(
        &mut self,
        species: &Vec<Species>,
        comp: &Vec<Vec<Fx>>,
        mix: &mut MixtureState,
        cfg: &SolverConfig,
        prev: Option<&EquilibriumResult>,
    ) -> (r: Option<EquilibriumResult>)
        requires
            comp@.len() == species@.len(),
            forall|j: int|
                0 <= j < comp@.len() ==> (#[trigger] comp@[j])@.len() == old(mix).b0@.len(),
            species@.len() + old(mix).b0@.len() + 3 < usize::MAX,
            match prev {
                Some(p) => p.moles@.len() == species@.len(),
                None => true,
            },
        ensures
            final(mix).b0@ == old(mix).b0@,
            final(self).conditions@ == old(self).conditions@,
            match r {
                Some(res) => old(self).next < old(self).conditions@.len() && final(self).next
                    == old(self).next + 1 && result_ok(
                    species@,
                    comp@,
                    old(mix).b0@,
                    cfg.tol.v as int,
                    cfg.max_iter as int,
                    cfg.max_cond as int,
                    old(self).conditions@[old(self).next as int],
                    res,
                ),
                None => old(self).next >= old(self).conditions@.len() && final(self).next == old(
                    self,
                ).next,
            },
    {
        if self.next >= self.conditions.len() {
            return None;
        }
        let c = self.conditions[self.next];
        mix.pressure = c.pressure;
        mix.temperature = c.temperature;
        mix.problem = c.problem;
        let res = solve(species, comp, mix, cfg, prev);
        self.next = self.next + 1;
        Some(res)
    }
}

/// Solves the whole condition sequence in order, with continuation:
/// each point after the first is seeded with the previous point's
/// result when that point converged.  The output holds exactly one
/// result per condition, each satisfying [`result_ok`].
pub fn solve_sequence(
    species: &Vec<Species>,
    comp: &Vec<Vec<Fx>>,
    mix: &mut MixtureState,
    conditions: &Vec<Condition>,
    cfg: &SolverConfig,
) -> (out: Vec<EquilibriumResult>)
    requires
        comp@.len() == species@.len(),
        forall|j: int| 0 <= j < comp@.len() ==> (#[trigger] comp@[j])@.len() == old(mix).b0@.len(),
        species@.len() + old(mix).b0@.len() + 3 < usize::MAX,
    ensures
        out@.len() == conditions@.len(),
        final(mix).b0@ == old(mix).b0@,
        forall|k: int|
            0 <= k < out@.len() ==> result_ok(
                species@,
                comp@,
                old(mix).b0@,
                cfg.tol.v as int,
                cfg.max_iter as int,
                cfg.max_cond as int,
                conditions@[k],
                #[trigger] out@[k],
            ),
{
    let n = conditions.len();
    let mut out: Vec<EquilibriumResult> = Vec::new();
    let mut k: usize = 0;
    while k < n
        invariant
            n == conditions@.len(),
            comp@.len() == species@.len(),
            forall|j: int|
                0 <= j < comp@.len() ==> (#[trigger] comp@[j])@.len() == old(mix).b0@.len(),
            species@.len() + old(mix).b0@.len() + 3 < usize::MAX,
            mix.b0@ == old(mix).b0@,
            0 <= k <= n,
            out@.len() == k,
            forall|kk: int|
                0 <= kk < k ==> result_ok(
                    species@,
                    comp@,
                    old(mix).b0@,
                    cfg.tol.v as int,
                    cfg.max_iter as int,
                    cfg.max_cond as int,
                    conditions@[kk],
                    #[trigger] out@[kk],
                ),
        decreases n - k,
    {
        let c = conditions[k];
        mix.pressure = c.pressure;
        mix.temperature = c.temperature;
        mix.problem = c.problem;
        let use_prev = if k > 0 {
            match out[k - 1].outcome {
                Outcome::Converged => true,
                _ => false,
            }
        } else {
            false
        };
        let res = if use_prev {
            let prev = &out[k - 1];
            solve(species, comp, mix, cfg, Some(prev))
        } else {
            solve(species, comp, mix, cfg, None)
        };
        out.push(res);
        k += 1;
    }
    out
}

} // verus!
