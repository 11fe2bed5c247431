//! Equilibrium solver: element-conservation-constrained minimization of
//! the mixture Gibbs energy at one condition point — temperature,
//! enthalpy or entropy assigned at fixed pressure, or temperature at
//! fixed volume.
//!
//! Each iteration evaluates the species' Gibbs energies, assembles the
//! reduced symmetric correction system (element potentials, direct mole
//! corrections of the active condensed phases, and the total-moles
//! correction), solves it, and applies the damped correction.  Gas
//! species driven below the trace threshold leave the active set and
//! may be reintroduced once per point; a condensed species enters only
//! when its activity criterion is met, within the configured cap,
//! ranked by most negative Gibbs energy.
//!
//! Every condition point yields exactly one result, flagged
//! `Converged`, `Singular` (with the offending constraint column) or
//! `MaxIterationsExceeded`.  The contract of [`solve`] states the
//! result invariants: nonnegative moles, gas moles as the exponential
//! of their ln-moles slots, at most the configured number of condensed
//! phases holding moles, the iteration cap (spent exactly when the cap
//! is the reported reason), the assigned temperature reported back,
//! and element conservation whenever the flag is `Converged`.

use vstd::prelude::*;
use crate::fx::{Fx, SCALE, fx_add, fx_sub, fx_mul, fx_abs, fx_exp};
use crate::linalg::{gauss_solve, mat_wf};
use crate::thermo::{Phase, Species, properties};

verus! {

/// A chemical element: only an index dimension of the balance
/// constraints.
#[derive(Clone, Debug)]
pub struct Element {
    /// Atomic symbol (one or two letters).
    pub symbol: Vec<u8>,
    /// Atomic weight.
    pub weight: Fx,
}

/// What a condition point fixes besides the pressure.
#[derive(Clone, Copy, PartialEq, Eq, Structural, Debug)]
pub enum ProblemKind {
    /// The temperature itself is assigned.
    FixedTemperature,
    /// The mixture enthalpy is assigned: the carried value is H0/R
    /// (kelvin times moles), and the state's temperature is only the
    /// starting estimate of the iteration.
    FixedEnthalpy(Fx),
    /// The mixture entropy is assigned: the carried value is S0/R
    /// (moles), and the state's temperature is only the starting
    /// estimate of the iteration.
    FixedEntropy(Fx),
    /// The volume is assigned together with the temperature: the
    /// carried value is RT/V in bar per mole, so the pressure tracks
    /// the total moles as P = n·RT/V and the state's `pressure` field
    /// is ignored.
    FixedVolume(Fx),
}

/// One condition point: the immutable inputs of a single solve.
#[derive(Clone, Debug)]
pub struct MixtureState {
    /// Pressure (bar).
    pub pressure: Fx,
    /// Temperature (K): the assigned value for a fixed-temperature
    /// point, the starting estimate otherwise.
    pub temperature: Fx,
    /// What is held fixed besides the pressure.
    pub problem: ProblemKind,
    /// The active elements.
    pub elements: Vec<Element>,
    /// Target total moles of each active element.
    pub b0: Vec<Fx>,
}

/// Tuning of the iteration; the defaults follow the classical values.
#[derive(Clone, Copy, Debug)]
pub struct SolverConfig {
    /// Relative convergence tolerance.
    pub tol: Fx,
    /// Iteration cap.
    pub max_iter: usize,
    /// Largest |Δ ln n| applied in one iteration (damping bound).
    pub step_limit: Fx,
    /// Trace threshold: a gas species below this fraction of the total
    /// moles leaves the active set.
    pub trace: Fx,
    /// Pivot magnitude below which the linear system is singular.
    pub pivot_eps: Fx,
    /// Cap on simultaneously condensed phases.
    pub max_cond: usize,
    /// Initial estimate of the total moles for the uniform guess.
    pub init_total: Fx,
}

impl Default for SolverConfig {
    /// Classical defaults: tolerance 1e-5, 60 iterations, step limit 2,
    /// trace 1e-8, pivot threshold 1e-7, two condensed phases, initial
    /// total 0.1 mol.
    fn default() -> (r: SolverConfig)
        ensures
            r.tol.v == 42950,
            r.max_iter == 60,
            r.step_limit.v == 2 * SCALE,
            r.trace.v == 43,
            r.pivot_eps.v == 429,
            r.max_cond == 2,
            r.init_total.v == SCALE / 10,
    {
        SolverConfig {
            tol: Fx { v: 42950 },
            max_iter: 60,
            step_limit: Fx { v: 2 * SCALE },
            trace: Fx { v: 43 },
            pivot_eps: Fx { v: 429 },
            max_cond: 2,
            init_total: Fx { v: SCALE / 10 },
        }
    }
}

/// How a solve ended.
#[derive(Clone, Copy, PartialEq, Eq, Structural, Debug)]
pub enum Outcome {
    /// The tolerance was met; the composition is authoritative.
    Converged,
    /// The linear system went singular at this constraint column; the
    /// attached composition is diagnostic only.
    Singular(usize),
    /// The iteration cap was reached; the attached composition is
    /// diagnostic only.
    MaxIterationsExceeded,
}

/// The converged (or best-effort) state of one condition point.
#[derive(Clone, Debug)]
pub struct EquilibriumResult {
    pub outcome: Outcome,
    /// Mole number per candidate species (zero when inactive); never
    /// negative.
    pub moles: Vec<Fx>,
    /// ln of the mole numbers: the iteration's working variable.
    pub ln_moles: Vec<Fx>,
    /// Lagrange multiplier (element potential) per active element.
    pub pi: Vec<Fx>,
    /// Total gas moles.
    pub total: Fx,
    /// Temperature of the state: the assigned one for a
    /// fixed-temperature point, the converged one otherwise.
    pub temperature: Fx,
    /// Mixture molecular weight.
    pub mixture_mw: Fx,
    /// Mixture Gibbs energy, G/RT.
    pub gibbs: Fx,
    /// Iterations spent.
    pub iterations: usize,
}

// ---------------------------------------------------------------------
// The element-balance criterion (stated, checked, and guaranteed)
// ---------------------------------------------------------------------

/// Fixed-point left fold of the element-`i` balance sum over the first
/// `j` species: Σ a[j][i] · n[j].
pub open spec fn elem_sum(comp: Seq<Vec<Fx>>, nmol: Seq<Fx>, i: int, j: int) -> int
    decreases j,
{
    if j <= 0 {
        0
    } else {
        fx_add(
            elem_sum(comp, nmol, i, j - 1),
            fx_mul(comp[j - 1]@[i].v as int, nmol[j - 1].v as int),
        )
    }
}

/// Element conservation within `tol_abs`: for every active element the
/// summed stoichiometric content of the composition equals its target.
pub open spec fn balance_ok(comp: Seq<Vec<Fx>>, nmol: Seq<Fx>, b0: Seq<Fx>, tol_abs: int) -> bool {
    forall|i: int|
        0 <= i < b0.len() ==> fx_abs(
            fx_sub(elem_sum(comp, nmol, i, nmol.len() as int), b0[i].v as int),
        ) <= tol_abs
}

/// The iteration's working relation: every gas species holding moles
/// carries them as the exponential of its ln-moles entry.  (The ln
/// slots of condensed species are unused: their moles are corrected
/// directly.)
pub open spec fn gas_ln_consistent(species: Seq<Species>, nmol: Seq<Fx>, lnn: Seq<Fx>) -> bool {
    forall|j: int|
        0 <= j < nmol.len() ==> (((#[trigger] nmol[j]).v > 0 && species[j].phase == Phase::Gas)
            ==> nmol[j].v as int == fx_exp(lnn[j].v as int))
}

/// Number of condensed species among the first `j` holding positive
/// moles.
pub open spec fn cond_moles_count(species: Seq<Species>, nmol: Seq<Fx>, j: int) -> int
    decreases j,
{
    if j <= 0 {
        0
    } else {
        cond_moles_count(species, nmol, j - 1) + (if species[j - 1].phase == Phase::Condensed
            && nmol[j - 1].v > 0 {
            1int
        } else {
            0int
        })
    }
}

/// Number of condensed species among the first `j` in the active set.
pub open spec fn active_cond_count(species: Seq<Species>, active: Seq<bool>, j: int) -> int
    decreases j,
{
    if j <= 0 {
        0
    } else {
        active_cond_count(species, active, j - 1) + (if species[j - 1].phase == Phase::Condensed
            && active[j - 1] {
            1int
        } else {
            0int
        })
    }
}

/// How flipping one flag moves the active-condensed count.
proof fn lemma_active_count_update(
    species: Seq<Species>,
    active: Seq<bool>,
    j: int,
    idx: int,
    val: bool,
)
    requires
        0 <= idx < active.len(),
        j <= active.len(),
    ensures
        active_cond_count(species, active.update(idx, val), j) == active_cond_count(
            species,
            active,
            j,
        ) + (if idx < j && species[idx].phase == Phase::Condensed {
            (if val {
                1int
            } else {
                0int
            }) - (if active[idx] {
                1int
            } else {
                0int
            })
        } else {
            0int
        }),
    decreases j,
{
    if j > 0 {
        lemma_active_count_update(species, active, j - 1, idx, val);
    }
}

/// Every positive-moles condensed species is active, so the
/// positive-moles count is bounded by the active count.
proof fn lemma_cond_count_le(species: Seq<Species>, nmol: Seq<Fx>, active: Seq<bool>, j: int)
    requires
        forall|k: int|
            0 <= k < j ==> (species[k].phase == Phase::Condensed && (#[trigger] nmol[k]).v > 0
                ==> active[k]),
    ensures
        cond_moles_count(species, nmol, j) <= active_cond_count(species, active, j),
    decreases j,
{
    if j > 0 {
        lemma_cond_count_le(species, nmol, active, j - 1);
    }
}

/// An all-false flag vector activates nothing.
proof fn lemma_active_count_none(species: Seq<Species>, active: Seq<bool>, j: int)
    requires
        forall|k: int| 0 <= k < j ==> !(#[trigger] active[k]),
    ensures
        active_cond_count(species, active, j) == 0,
    decreases j,
{
    if j > 0 {
        lemma_active_count_none(species, active, j - 1);
    }
}

/// Magnitude scale of the balance targets: the largest |b0| and at
/// least one.
pub open spec fn spec_bscale(b0: Seq<Fx>, i: int) -> int
    decreases i,
{
    if i <= 0 {
        SCALE as int
    } else {
        let p = spec_bscale(b0, i - 1);
        let c = fx_abs(b0[i - 1].v as int);
        if c > p {
            c
        } else {
            p
        }
    }
}

fn bscale(b0: &Vec<Fx>) -> (r: Fx)
    ensures
        r.v as int == spec_bscale(b0@, b0@.len() as int),
{
    let n = b0.len();
    let mut acc = Fx::one();
    let mut i: usize = 0;
    while i < n
        invariant
            n == b0@.len(),
            0 <= i <= n,
            acc.v as int == spec_bscale(b0@, i as int),
        decreases n - i,
    {
        let c = b0[i].abs();
        if c.v > acc.v {
            acc = c;
        }
        i += 1;
    }
    acc
}

/// Checks the element-balance criterion on the current composition.
fn balance_ok_exec(comp: &Vec<Vec<Fx>>, nmol: &Vec<Fx>, b0: &Vec<Fx>, tol_abs: Fx) -> (r: bool)
    requires
        comp@.len() == nmol@.len(),
        forall|j: int| 0 <= j < comp@.len() ==> (#[trigger] comp@[j])@.len() == b0@.len(),
    ensures
        r == balance_ok(comp@, nmol@, b0@, tol_abs.v as int),
{
    let ne = b0.len();
    let ns = nmol.len();
    let mut i: usize = 0;
    while i < ne
        invariant
            ne == b0@.len(),
            ns == nmol@.len(),
            comp@.len() == ns,
            forall|j: int| 0 <= j < comp@.len() ==> (#[trigger] comp@[j])@.len() == ne,
            0 <= i <= ne,
            forall|i2: int|
                0 <= i2 < i ==> fx_abs(
                    fx_sub(elem_sum(comp@, nmol@, i2, ns as int), b0@[i2].v as int),
                ) <= tol_abs.v as int,
        decreases ne - i,
    {
        let mut acc = Fx::zero();
        let mut j: usize = 0;
        while j < ns
            invariant
                ne == b0@.len(),
                ns == nmol@.len(),
                comp@.len() == ns,
                forall|j2: int| 0 <= j2 < comp@.len() ==> (#[trigger] comp@[j2])@.len() == ne,
                i < ne,
                0 <= j <= ns,
                acc.v as int == elem_sum(comp@, nmol@, i as int, j as int),
            decreases ns - j,
        {
            acc = acc.add(comp[j][i].mul(nmol[j]));
            j += 1;
        }
        let resid = acc.sub(b0[i]).abs();
        if resid.v > tol_abs.v {
            return false;
        }
        i += 1;
    }
    true
}

// ---------------------------------------------------------------------
// The solver
// ---------------------------------------------------------------------

/// A vector of `n` copies of `v`.
fn filled(n: usize, v: Fx) -> (r: Vec<Fx>)
    ensures
        r@.len() == n,
        forall|j: int| 0 <= j < n ==> r@[j] == v,
    decreases n,
{
    let mut r: Vec<Fx> = Vec::new();
    let mut i: usize = 0;
    while i < n
        invariant
            0 <= i <= n,
            r@.len() == i,
            forall|j: int| 0 <= j < i ==> r@[j] == v,
        decreases n - i,
    {
        r.push(v);
        i += 1;
    }
    r
}

fn flags(n: usize, v: bool) -> (r: Vec<bool>)
    ensures
        r@.len() == n,
        forall|j: int| 0 <= j < n ==> r@[j] == v,
{
    let mut r: Vec<bool> = Vec::new();
    let mut i: usize = 0;
    while i < n
        invariant
            0 <= i <= n,
            r@.len() == i,
            forall|j: int| 0 <= j < i ==> r@[j] == v,
        decreases n - i,
    {
        r.push(v);
        i += 1;
    }
    r
}

/// Assembles the finished result, computing the mixture molecular
/// weight and Gibbs energy from the composition.
fn finish(
    outcome: Outcome,
    nmol: Vec<Fx>,
    lnn: Vec<Fx>,
    pi: Vec<Fx>,
    total: Fx,
    temperature: Fx,
    gpot: &Vec<Fx>,
    species: &Vec<Species>,
    iterations: usize,
) -> (r: EquilibriumResult)
    requires
        species@.len() == nmol@.len(),
        gpot@.len() == nmol@.len(),
        lnn@.len() == nmol@.len(),
        forall|j: int| 0 <= j < nmol@.len() ==> (#[trigger] nmol@[j]).v >= 0,
    ensures
        r.outcome == outcome,
        r.moles@ == nmol@,
        r.ln_moles@ == lnn@,
        r.pi@ == pi@,
        r.iterations == iterations,
        r.temperature == temperature,
        r.total == total,
        forall|j: int| 0 <= j < r.moles@.len() ==> (#[trigger] r.moles@[j]).v >= 0,
{
    let ns = nmol.len();
    let mut mass = Fx::zero();
    let mut tot = Fx::zero();
    let mut gib = Fx::zero();
    let mut j: usize = 0;
    while j < ns
        invariant
            ns == nmol@.len(),
            species@.len() == ns,
            gpot@.len() == ns,
            0 <= j <= ns,
        decreases ns - j,
    {
        mass = mass.add(nmol[j].mul(species[j].mw));
        tot = tot.add(nmol[j]);
        gib = gib.add(nmol[j].mul(gpot[j]));
        j += 1;
    }
    let mw = mass.div(tot);
    EquilibriumResult {
        outcome,
        moles: nmol,
        ln_moles: lnn,
        pi,
        total,
        temperature,
        mixture_mw: mw,
        gibbs: gib,
        iterations,
    }
}

/// Builds the total-moles row of the correction system: the active-gas
/// sums Σ a_kj n_j per element column, zeros under the condensed
/// columns, Σ n_j − n on the diagonal, and n − Σ n_j + Σ n_j g_j on the
/// right-hand side.
fn total_row(
    species: &Vec<Species>,
    comp: &Vec<Vec<Fx>>,
    nmol: &Vec<Fx>,
    active: &Vec<bool>,
    gpot: &Vec<Fx>,
    hvec: &Vec<Fx>,
    with_h: bool,
    nlm: usize,
    nc: usize,
    ntot: Fx,
) -> (row: Vec<Fx>)
    requires
        comp@.len() == species@.len(),
        nmol@.len() == species@.len(),
        active@.len() == species@.len(),
        gpot@.len() == species@.len(),
        hvec@.len() == species@.len(),
        forall|j: int| 0 <= j < comp@.len() ==> (#[trigger] comp@[j])@.len() >= nlm,
        species@.len() + nlm + 3 < usize::MAX,
        nc <= species@.len(),
    ensures
        row@.len() == nlm + nc + 2 + (if with_h { 1int } else { 0int }),
{
    let ns = species.len();
    let mut row: Vec<Fx> = Vec::new();
    let mut col: usize = 0;
    while col < nlm
        invariant
            ns == species@.len(),
            comp@.len() == ns,
            forall|j3: int| 0 <= j3 < comp@.len() ==> (#[trigger] comp@[j3])@.len() >= nlm,
            nmol@.len() == ns,
            active@.len() == ns,
            0 <= col <= nlm,
            row@.len() == col,
        decreases nlm - col,
    {
        let mut s = Fx::zero();
        let mut jj: usize = 0;
        while jj < ns
            invariant
                ns == species@.len(),
                comp@.len() == ns,
                forall|j3: int| 0 <= j3 < comp@.len() ==> (#[trigger] comp@[j3])@.len() >= nlm,
                nmol@.len() == ns,
                active@.len() == ns,
                col < nlm,
                0 <= jj <= ns,
            decreases ns - jj,
        {
            if active[jj] {
                match species[jj].phase {
                    Phase::Gas => {
                        s = s.add(comp[jj][col].mul(nmol[jj]));
                    },
                    Phase::Condensed => {},
                }
            }
            jj += 1;
        }
        row.push(s);
        col += 1;
    }
    let mut cz: usize = 0;
    while cz < nc
        invariant
            0 <= cz <= nc,
            nc <= species@.len(),
            species@.len() + nlm + 3 < usize::MAX,
            row@.len() == nlm + cz,
        decreases nc - cz,
    {
        row.push(Fx::zero());
        cz += 1;
    }
    let mut sn = Fx::zero();
    let mut sng = Fx::zero();
    let mut jj: usize = 0;
    while jj < ns
        invariant
            ns == species@.len(),
            nmol@.len() == ns,
            active@.len() == ns,
            gpot@.len() == ns,
            0 <= jj <= ns,
        decreases ns - jj,
    {
        if active[jj] {
            match species[jj].phase {
                Phase::Gas => {
                    sn = sn.add(nmol[jj]);
                    sng = sng.add(nmol[jj].mul(gpot[jj]));
                },
                Phase::Condensed => {},
            }
        }
        jj += 1;
    }
    row.push(sn.sub(ntot));
    if with_h {
        let mut snh = Fx::zero();
        let mut jh: usize = 0;
        while jh < ns
            invariant
                ns == species@.len(),
                nmol@.len() == ns,
                active@.len() == ns,
                hvec@.len() == ns,
                0 <= jh <= ns,
            decreases ns - jh,
        {
            if active[jh] {
                match species[jh].phase {
                    Phase::Gas => {
                        snh = snh.add(nmol[jh].mul(hvec[jh]));
                    },
                    Phase::Condensed => {},
                }
            }
            jh += 1;
        }
        row.push(snh);
    }
    row.push(ntot.sub(sn).add(sng));
    row
}


/// Builds the temperature-residual row of a free-temperature point.
///
/// For an enthalpy-fixed point the condition is H = H0; the per-gas
/// weight is h_j and the residual is H0/RT − Σ n_j h_j.  For an
/// entropy-fixed point the condition is S = S0; the weight is
/// σ_j − 1 with σ_j = h_j − g_j the partial molar entropy, and the
/// residual is S0/R − Σ n_j σ_j.  In both cases the gas corrections
/// Δln n_j = Δln n + Σ a_ij π_i + h_j Δln T − g_j are substituted in,
/// which adds Σ n_j w_j h_j to the temperature column beside the heat
/// capacity sum Σ n_j Cp_j.
fn residual_row(
    species: &Vec<Species>,
    comp: &Vec<Vec<Fx>>,
    nmol: &Vec<Fx>,
    active: &Vec<bool>,
    gpot: &Vec<Fx>,
    hvec: &Vec<Fx>,
    cpv: &Vec<Fx>,
    condlist: &Vec<usize>,
    nlm: usize,
    target: Fx,
    t: Fx,
    entropy: bool,
) -> (row: Vec<Fx>)
    requires
        comp@.len() == species@.len(),
        nmol@.len() == species@.len(),
        active@.len() == species@.len(),
        gpot@.len() == species@.len(),
        hvec@.len() == species@.len(),
        cpv@.len() == species@.len(),
        forall|j: int| 0 <= j < comp@.len() ==> (#[trigger] comp@[j])@.len() >= nlm,
        forall|c: int| 0 <= c < condlist@.len() ==> (#[trigger] condlist@[c]) < species@.len(),
        condlist@.len() <= species@.len(),
        species@.len() + nlm + 3 < usize::MAX,
    ensures
        row@.len() == nlm + condlist@.len() + 3,
{
    let ns = species.len();
    let nc = condlist.len();
    let one = Fx::one();
    let mut row: Vec<Fx> = Vec::new();
    let mut col: usize = 0;
    while col < nlm
        invariant
            ns == species@.len(),
            comp@.len() == ns,
            forall|j3: int| 0 <= j3 < comp@.len() ==> (#[trigger] comp@[j3])@.len() >= nlm,
            nmol@.len() == ns,
            active@.len() == ns,
            gpot@.len() == ns,
            hvec@.len() == ns,
            0 <= col <= nlm,
            row@.len() == col,
        decreases nlm - col,
    {
        let mut s = Fx::zero();
        let mut jj: usize = 0;
        while jj < ns
            invariant
                ns == species@.len(),
                comp@.len() == ns,
                forall|j3: int| 0 <= j3 < comp@.len() ==> (#[trigger] comp@[j3])@.len() >= nlm,
                nmol@.len() == ns,
                active@.len() == ns,
                gpot@.len() == ns,
                hvec@.len() == ns,
                col < nlm,
                0 <= jj <= ns,
            decreases ns - jj,
        {
            if active[jj] {
                match species[jj].phase {
                    Phase::Gas => {
                        let w = if entropy {
                            hvec[jj].sub(gpot[jj]).sub(one)
                        } else {
                            hvec[jj]
                        };
                        s = s.add(comp[jj][col].mul(nmol[jj]).mul(w));
                    },
                    Phase::Condensed => {},
                }
            }
            jj += 1;
        }
        row.push(s);
        col += 1;
    }
    let mut cc: usize = 0;
    while cc < nc
        invariant
            ns == species@.len(),
            gpot@.len() == ns,
            hvec@.len() == ns,
            nc == condlist@.len(),
            nc <= ns,
            forall|c: int| 0 <= c < condlist@.len() ==> (#[trigger] condlist@[c]) < ns,
            species@.len() + nlm + 3 < usize::MAX,
            0 <= cc <= nc,
            row@.len() == nlm + cc,
        decreases nc - cc,
    {
        let sp = condlist[cc];
        let wc = if entropy {
            hvec[sp].sub(gpot[sp])
        } else {
            hvec[sp]
        };
        row.push(wc);
        cc += 1;
    }
    let mut sww = Fx::zero();
    let mut sng = Fx::zero();
    let mut scp = Fx::zero();
    let mut scur = Fx::zero();
    let mut srhs = Fx::zero();
    let mut jj: usize = 0;
    while jj < ns
        invariant
            ns == species@.len(),
            nmol@.len() == ns,
            active@.len() == ns,
            gpot@.len() == ns,
            hvec@.len() == ns,
            cpv@.len() == ns,
            0 <= jj <= ns,
        decreases ns - jj,
    {
        if active[jj] {
            scp = scp.add(nmol[jj].mul(cpv[jj]));
            match species[jj].phase {
                Phase::Gas => {
                    let w = if entropy {
                        hvec[jj].sub(gpot[jj]).sub(one)
                    } else {
                        hvec[jj]
                    };
                    let nw = nmol[jj].mul(w);
                    sww = sww.add(nw);
                    sng = sng.add(nmol[jj]);
                    scp = scp.add(nw.mul(hvec[jj]));
                    srhs = srhs.add(nw.mul(gpot[jj]));
                    scur = scur.add(if entropy {
                        nmol[jj].mul(w.add(one))
                    } else {
                        nw
                    });
                },
                Phase::Condensed => {
                    let wc = if entropy {
                        hvec[jj].sub(gpot[jj])
                    } else {
                        hvec[jj]
                    };
                    scur = scur.add(nmol[jj].mul(wc));
                },
            }
        }
        jj += 1;
    }
    // The total-moles column: Σ n_j w_j, plus Σ n_j for the entropy
    // condition (σ_j = w_j + 1).
    if entropy {
        row.push(sww.add(sng));
    } else {
        row.push(sww);
    }
    row.push(scp);
    let tt = if entropy {
        target
    } else {
        target.div(t)
    };
    row.push(tt.sub(scur).add(srhs));
    row
}

/// Solves one condition point: fixed temperature and pressure, or
/// fixed enthalpy and pressure with the temperature iterated.
///
/// Exactly one result is produced.  Its `moles` vector has one entry
/// per candidate species, never negative (zero for species out of the
/// active set); `pi` has one entry per element.  When the outcome is
/// `Converged`, element conservation holds: for every active element,
/// the sum over species of stoichiometric coefficient times mole number
/// equals the target within the configured tolerance (scaled by the
/// magnitude of the targets).
pub fn solve(
    species: &Vec<Species>,
    comp: &Vec<Vec<Fx>>,
    mix: &MixtureState,
    cfg: &SolverConfig,
    init: Option<&EquilibriumResult>,
) -> (r: EquilibriumResult)
    requires
        comp@.len() == species@.len(),
        forall|j: int| 0 <= j < comp@.len() ==> (#[trigger] comp@[j])@.len() == mix.b0@.len(),
        species@.len() + mix.b0@.len() + 3 < usize::MAX,
        match init {
            Some(p) => p.moles@.len() == species@.len(),
            None => true,
        },
    ensures
        r.moles@.len() == species@.len(),
        r.ln_moles@.len() == species@.len(),
        r.pi@.len() == mix.b0@.len(),
        r.iterations <= cfg.max_iter,
        forall|j: int| 0 <= j < r.moles@.len() ==> (#[trigger] r.moles@[j]).v >= 0,
        r.outcome == Outcome::Converged ==> balance_ok(
            comp@,
            r.moles@,
            mix.b0@,
            fx_mul(cfg.tol.v as int, spec_bscale(mix.b0@, mix.b0@.len() as int)),
        ),
        r.outcome == Outcome::Converged ==> r.iterations >= 1,
        r.outcome == Outcome::MaxIterationsExceeded ==> r.iterations == cfg.max_iter,
        r.outcome matches Outcome::Singular(col) ==> col < mix.b0@.len() + species@.len() + 2,
        (match mix.problem {
            ProblemKind::FixedTemperature => true,
            ProblemKind::FixedVolume(_) => true,
            _ => false,
        }) ==> r.temperature == mix.temperature,
        gas_ln_consistent(species@, r.moles@, r.ln_moles@),
        cond_moles_count(species@, r.moles@, species@.len() as int) <= cfg.max_cond as int,
{
    let ns = species.len();
    let nlm = mix.b0.len();
    let mut t = mix.temperature;
    let mut lnt = t.ln();
    let tvar = match mix.problem {
        ProblemKind::FixedTemperature => false,
        ProblemKind::FixedEnthalpy(_) => true,
        ProblemKind::FixedEntropy(_) => true,
        ProblemKind::FixedVolume(_) => false,
    };
    let target = match mix.problem {
        ProblemKind::FixedTemperature => Fx::zero(),
        ProblemKind::FixedEnthalpy(v) => v,
        ProblemKind::FixedEntropy(v) => v,
        ProblemKind::FixedVolume(v) => v,
    };
    let volume_fixed = match mix.problem {
        ProblemKind::FixedVolume(_) => true,
        _ => false,
    };
    let mut lnp = mix.pressure.ln();
    let tol_abs = cfg.tol.mul(bscale(&mix.b0));

    // Working state.
    let mut nmol: Vec<Fx> = filled(ns, Fx::zero());
    let mut lnn: Vec<Fx> = filled(ns, Fx::zero());
    let mut active: Vec<bool> = flags(ns, false);
    let mut frozen: Vec<bool> = flags(ns, false);
    let mut reintro: Vec<bool> = flags(ns, false);
    let mut cond_out: Vec<bool> = flags(ns, false);
    let mut pi: Vec<Fx> = filled(nlm, Fx::zero());
    let mut gpot: Vec<Fx> = filled(ns, Fx::zero());
    let mut hvec: Vec<Fx> = filled(ns, Fx::zero());
    let mut cpv: Vec<Fx> = filled(ns, Fx::zero());
    let mut ntot = cfg.init_total;
    let mut lnntot = cfg.init_total.ln();
    proof {
        lemma_active_count_none(species@, active@, ns as int);
    }

    // Initial guess: the previous converged composition when one is
    // given (continuation), else the uniform small value over the gas
    // candidates.
    let mut ngas: usize = 0;
    let mut j0: usize = 0;
    while j0 < ns
        invariant
            ns == species@.len(),
            0 <= j0 <= ns,
            ngas <= j0,
        decreases ns - j0,
    {
        match species[j0].phase {
            Phase::Gas => {
                ngas = ngas + 1;
            },
            Phase::Condensed => {},
        }
        j0 += 1;
    }
    let uniform = if ngas > 0 {
        cfg.init_total.div(Fx::from_int(ngas as i64))
    } else {
        cfg.init_total
    };
    let mut j1: usize = 0;
    while j1 < ns
        invariant
            ns == species@.len(),
            nmol@.len() == ns,
            lnn@.len() == ns,
            active@.len() == ns,
            comp@.len() == ns,
            0 <= j1 <= ns,
            forall|j: int| 0 <= j < ns ==> (#[trigger] nmol@[j]).v >= 0,
            gas_ln_consistent(species@, nmol@, lnn@),
            active_cond_count(species@, active@, ns as int) == 0,
            forall|j3: int|
                0 <= j3 < ns ==> (species@[j3].phase == Phase::Condensed && (#[trigger] nmol@[j3]).v
                    > 0 ==> active@[j3]),
            match init {
                Some(p) => p.moles@.len() == ns,
                None => true,
            },
        decreases ns - j1,
    {
        match species[j1].phase {
            Phase::Gas => {
                let seed = match init {
                    Some(prev) => {
                        let pv = prev.moles[j1];
                        if pv.v > 0 {
                            pv
                        } else {
                            uniform
                        }
                    },
                    None => uniform,
                };
                let ls = seed.ln();
                lnn[j1] = ls;
                nmol[j1] = ls.exp();
                let ghost pa = active@;
                active[j1] = true;
                proof {
                    lemma_active_count_update(species@, pa, ns as int, j1 as int, true);
                }
            },
            Phase::Condensed => {},
        }
        j1 += 1;
    }

    let mut it: usize = 0;
    while it < cfg.max_iter
        invariant
            ns == species@.len(),
            nlm == mix.b0@.len(),
            comp@.len() == ns,
            forall|j: int| 0 <= j < comp@.len() ==> (#[trigger] comp@[j])@.len() == nlm,
            ns + nlm + 3 < usize::MAX,
            nmol@.len() == ns,
            lnn@.len() == ns,
            active@.len() == ns,
            frozen@.len() == ns,
            reintro@.len() == ns,
            cond_out@.len() == ns,
            gpot@.len() == ns,
            hvec@.len() == ns,
            cpv@.len() == ns,
            pi@.len() == nlm,
            0 <= it <= cfg.max_iter,
            forall|j: int| 0 <= j < ns ==> (#[trigger] nmol@[j]).v >= 0,
            gas_ln_consistent(species@, nmol@, lnn@),
            active_cond_count(species@, active@, ns as int) <= cfg.max_cond as int,
            forall|j3: int|
                0 <= j3 < ns ==> (species@[j3].phase == Phase::Condensed && (#[trigger] nmol@[j3]).v
                    > 0 ==> active@[j3]),
            tol_abs.v as int == fx_mul(cfg.tol.v as int, spec_bscale(mix.b0@, nlm as int)),
            !tvar ==> t == mix.temperature,
            tvar == (match mix.problem {
                ProblemKind::FixedTemperature => false,
                ProblemKind::FixedEnthalpy(_) => true,
                ProblemKind::FixedEntropy(_) => true,
                ProblemKind::FixedVolume(_) => false,
            }),
        decreases cfg.max_iter - it,
    {
        // For an assigned volume the pressure tracks the total moles:
        // P = n·RT/V, so ln P is refreshed from the current estimate.
        if volume_fixed {
            lnp = target.ln().add(lnntot);
        }
        // (a) Species Gibbs energies at this state.  A species whose
        // temperature range does not cover `t` is frozen out of the
        // point, as the evaluator never extrapolates.
        let mut j: usize = 0;
        while j < ns
            invariant
                ns == species@.len(),
                nmol@.len() == ns,
                lnn@.len() == ns,
                active@.len() == ns,
                frozen@.len() == ns,
                gpot@.len() == ns,
                hvec@.len() == ns,
                cpv@.len() == ns,
                0 <= j <= ns,
                forall|j2: int| 0 <= j2 < ns ==> (#[trigger] nmol@[j2]).v >= 0,
                gas_ln_consistent(species@, nmol@, lnn@),
                active_cond_count(species@, active@, ns as int) <= cfg.max_cond as int,
                forall|j3: int|
                    0 <= j3 < ns ==> (species@[j3].phase == Phase::Condensed && (
                    #[trigger] nmol@[j3]).v > 0 ==> active@[j3]),
            decreases ns - j,
        {
            if active[j] {
                match properties(&species[j], t) {
                    Ok(p) => {
                        let g0 = p.h.sub(p.s);
                        let g = match species[j].phase {
                            Phase::Gas => g0.add(lnp).add(lnn[j]).sub(lnntot),
                            Phase::Condensed => g0,
                        };
                        gpot[j] = g;
                        hvec[j] = p.h;
                        cpv[j] = p.cp;
                    },
                    Err(_) => {
                        let ghost pa = active@;
                        active[j] = false;
                        frozen[j] = true;
                        nmol[j] = Fx::zero();
                        proof {
                            lemma_active_count_update(species@, pa, ns as int, j as int, false);
                        }
                    },
                }
            }
            j += 1;
        }

        // (c) Active condensed phases, in index order.
        let mut condlist: Vec<usize> = Vec::new();
        let mut j2: usize = 0;
        while j2 < ns
            invariant
                ns == species@.len(),
                active@.len() == ns,
                0 <= j2 <= ns,
                condlist@.len() <= j2,
                forall|c: int| 0 <= c < condlist@.len() ==> (#[trigger] condlist@[c]) < j2,
                forall|c: int|
                    0 <= c < condlist@.len() ==> species@[#[trigger] condlist@[c] as int].phase
                        == Phase::Condensed,
                forall|c: int|
                    0 <= c < condlist@.len() ==> active@[#[trigger] condlist@[c] as int],
                forall|c1: int, c2: int|
                    0 <= c1 < c2 < condlist@.len() ==> condlist@[c1] < condlist@[c2],
            decreases ns - j2,
        {
            if active[j2] {
                match species[j2].phase {
                    Phase::Condensed => {
                        condlist.push(j2);
                    },
                    Phase::Gas => {},
                }
            }
            j2 += 1;
        }
        let nc = condlist.len();
        let q = if tvar {
            nlm + nc + 2
        } else {
            nlm + nc + 1
        };

        // (b) The reduced correction system.
        let mut mat: Vec<Vec<Fx>> = Vec::new();
        let mut row_i: usize = 0;
        // Element rows.
        while row_i < nlm
            invariant
                ns == species@.len(),
                nlm == mix.b0@.len(),
                comp@.len() == ns,
                forall|j3: int| 0 <= j3 < comp@.len() ==> (#[trigger] comp@[j3])@.len() == nlm,
                nmol@.len() == ns,
                active@.len() == ns,
                gpot@.len() == ns,
                nc == condlist@.len(),
                forall|c: int| 0 <= c < condlist@.len() ==> (#[trigger] condlist@[c]) < ns,
                q == nlm + nc + 1 + (if tvar { 1int } else { 0int }),
                ns + nlm + 3 < usize::MAX,
                hvec@.len() == ns,
                0 <= row_i <= nlm,
                mat@.len() == row_i,
                forall|rr: int| 0 <= rr < row_i ==> (#[trigger] mat@[rr])@.len() == q + 1,
            decreases nlm - row_i,
        {
            let mut row: Vec<Fx> = Vec::new();
            // Element-potential columns.
            let mut col: usize = 0;
            while col < nlm
                invariant
                    ns == species@.len(),
                    nlm == mix.b0@.len(),
                    comp@.len() == ns,
                    forall|j3: int| 0 <= j3 < comp@.len() ==> (#[trigger] comp@[j3])@.len() == nlm,
                    nmol@.len() == ns,
                    active@.len() == ns,
                    row_i < nlm,
                    0 <= col <= nlm,
                    row@.len() == col,
                decreases nlm - col,
            {
                let mut s = Fx::zero();
                let mut jj: usize = 0;
                while jj < ns
                    invariant
                        ns == species@.len(),
                        comp@.len() == ns,
                        forall|j3: int|
                            0 <= j3 < comp@.len() ==> (#[trigger] comp@[j3])@.len() == nlm,
                        nmol@.len() == ns,
                        active@.len() == ns,
                        row_i < nlm,
                        col < nlm,
                        0 <= jj <= ns,
                    decreases ns - jj,
                {
                    if active[jj] {
                        match species[jj].phase {
                            Phase::Gas => {
                                s = s.add(comp[jj][row_i].mul(comp[jj][col]).mul(nmol[jj]));
                            },
                            Phase::Condensed => {},
                        }
                    }
                    jj += 1;
                }
                row.push(s);
                col += 1;
            }
            // Condensed columns: the stoichiometric coefficients.
            let mut cc: usize = 0;
            while cc < nc
                invariant
                    ns == species@.len(),
                    comp@.len() == ns,
                    forall|j3: int| 0 <= j3 < comp@.len() ==> (#[trigger] comp@[j3])@.len() == nlm,
                    nc == condlist@.len(),
                    forall|c: int| 0 <= c < condlist@.len() ==> (#[trigger] condlist@[c]) < ns,
                    row_i < nlm,
                    0 <= cc <= nc,
                    row@.len() == nlm + cc,
                decreases nc - cc,
            {
                let sp = condlist[cc];
                row.push(comp[sp][row_i]);
                cc += 1;
            }
            // Total-moles column: Σ a_ij n_j over active gas.
            let mut sg = Fx::zero();
            let mut jj2: usize = 0;
            while jj2 < ns
                invariant
                    ns == species@.len(),
                    comp@.len() == ns,
                    forall|j3: int| 0 <= j3 < comp@.len() ==> (#[trigger] comp@[j3])@.len() == nlm,
                    nmol@.len() == ns,
                    active@.len() == ns,
                    row_i < nlm,
                    0 <= jj2 <= ns,
                decreases ns - jj2,
            {
                if active[jj2] {
                    match species[jj2].phase {
                        Phase::Gas => {
                            sg = sg.add(comp[jj2][row_i].mul(nmol[jj2]));
                        },
                        Phase::Condensed => {},
                    }
                }
                jj2 += 1;
            }
            row.push(sg);
            // Temperature column (free-temperature points): Σ a_ij n_j h_j
            // over active gas.
            if tvar {
                let mut sh = Fx::zero();
                let mut jj4: usize = 0;
                while jj4 < ns
                    invariant
                        ns == species@.len(),
                        comp@.len() == ns,
                        forall|j3: int|
                            0 <= j3 < comp@.len() ==> (#[trigger] comp@[j3])@.len() == nlm,
                        nmol@.len() == ns,
                        active@.len() == ns,
                        hvec@.len() == ns,
                        row_i < nlm,
                        0 <= jj4 <= ns,
                    decreases ns - jj4,
                {
                    if active[jj4] {
                        match species[jj4].phase {
                            Phase::Gas => {
                                sh = sh.add(comp[jj4][row_i].mul(nmol[jj4]).mul(hvec[jj4]));
                            },
                            Phase::Condensed => {},
                        }
                    }
                    jj4 += 1;
                }
                row.push(sh);
            }
            // Right-hand side: b0_i − Σ a_ij n_j (all active) + Σ a_ij n_j g_j (gas).
            let mut rhs = mix.b0[row_i];
            let mut jj3: usize = 0;
            while jj3 < ns
                invariant
                    ns == species@.len(),
                    comp@.len() == ns,
                    forall|j3: int| 0 <= j3 < comp@.len() ==> (#[trigger] comp@[j3])@.len() == nlm,
                    nmol@.len() == ns,
                    active@.len() == ns,
                    gpot@.len() == ns,
                    row_i < nlm,
                    0 <= jj3 <= ns,
                decreases ns - jj3,
            {
                if active[jj3] {
                    let a_n = comp[jj3][row_i].mul(nmol[jj3]);
                    rhs = rhs.sub(a_n);
                    match species[jj3].phase {
                        Phase::Gas => {
                            rhs = rhs.add(a_n.mul(gpot[jj3]));
                        },
                        Phase::Condensed => {},
                    }
                }
                jj3 += 1;
            }
            row.push(rhs);
            proof {
                assert(row@.len() == q + 1);
            }
            mat.push(row);
            row_i += 1;
        }
        // Condensed rows: Σ_i a_ic π_i = g_c.
        let mut cr: usize = 0;
        while cr < nc
            invariant
                ns == species@.len(),
                nlm == mix.b0@.len(),
                comp@.len() == ns,
                forall|j3: int| 0 <= j3 < comp@.len() ==> (#[trigger] comp@[j3])@.len() == nlm,
                gpot@.len() == ns,
                hvec@.len() == ns,
                nc == condlist@.len(),
                nc <= ns,
                forall|c: int| 0 <= c < condlist@.len() ==> (#[trigger] condlist@[c]) < ns,
                q == nlm + nc + 1 + (if tvar { 1int } else { 0int }),
                ns + nlm + 3 < usize::MAX,
                0 <= cr <= nc,
                mat@.len() == nlm + cr,
                forall|rr: int| 0 <= rr < mat@.len() ==> (#[trigger] mat@[rr])@.len() == q + 1,
            decreases nc - cr,
        {
            let sp = condlist[cr];
            let mut row: Vec<Fx> = Vec::new();
            let mut col: usize = 0;
            while col < nlm
                invariant
                    ns == species@.len(),
                    comp@.len() == ns,
                    forall|j3: int| 0 <= j3 < comp@.len() ==> (#[trigger] comp@[j3])@.len() == nlm,
                    sp < ns,
                    0 <= col <= nlm,
                    row@.len() == col,
                decreases nlm - col,
            {
                row.push(comp[sp][col]);
                col += 1;
            }
            let mut cz: usize = 0;
            while cz < nc + 1
                invariant
                    0 <= cz <= nc + 1,
                    ns + nlm + 3 < usize::MAX,
                    nc + 1 <= ns + 1,
                    row@.len() == nlm + cz,
                decreases nc + 1 - cz,
            {
                row.push(Fx::zero());
                cz += 1;
            }
            if tvar {
                row.push(hvec[sp]);
            }
            row.push(gpot[sp]);
            proof {
                assert(row@.len() == q + 1);
            }
            mat.push(row);
            cr += 1;
        }
        // Total-moles row.
        let trow = total_row(species, comp, &nmol, &active, &gpot, &hvec, tvar, nlm, nc, ntot);
        proof {
            assert(trow@.len() == q + 1);
        }
        mat.push(trow);
        // The temperature-residual row of a free-temperature point: the
        // enthalpy or the entropy condition.
        if tvar {
            let entropy = match mix.problem {
                ProblemKind::FixedEntropy(_) => true,
                _ => false,
            };
            let hrow = residual_row(species, comp, &nmol, &active, &gpot, &hvec, &cpv,
                &condlist, nlm, target, t, entropy);
            proof {
                assert(hrow@.len() == q + 1);
            }
            mat.push(hrow);
        }
        proof {
            assert(mat_wf(mat@, q as int));
        }

        // (b, continued) Solve the correction system.
        let x = match gauss_solve(&mut mat, q, cfg.pivot_eps) {
            Ok(x) => x,
            Err(col) => {
                proof {
                    lemma_cond_count_le(species@, nmol@, active@, ns as int);
                }
                return finish(
                    Outcome::Singular(col),
                    nmol,
                    lnn,
                    pi,
                    ntot,
                    t,
                    &gpot,
                    species,
                    it + 1,
                );
            },
        };
        let mut newpi: Vec<Fx> = Vec::new();
        let mut pc: usize = 0;
        while pc < nlm
            invariant
                x@.len() == q,
                q == nlm + nc + 1 + (if tvar { 1int } else { 0int }),
                0 <= pc <= nlm,
                newpi@.len() == pc,
            decreases nlm - pc,
        {
            newpi.push(x[pc]);
            pc += 1;
        }
        pi = newpi;
        let dlnn = x[nlm + nc];
        let dlnt = if tvar {
            x[nlm + nc + 1]
        } else {
            Fx::zero()
        };

        // (c) Corrections per active gas species, and the damping
        // factor bounding every |Δ ln n| by the step limit.
        let mut dln: Vec<Fx> = filled(ns, Fx::zero());
        let mut maxstep = dlnn.abs();
        let da = dlnt.abs();
        if da.v > maxstep.v {
            maxstep = da;
        }
        let mut jd: usize = 0;
        while jd < ns
            invariant
                ns == species@.len(),
                comp@.len() == ns,
                forall|j3: int| 0 <= j3 < comp@.len() ==> (#[trigger] comp@[j3])@.len() == nlm,
                active@.len() == ns,
                gpot@.len() == ns,
                hvec@.len() == ns,
                dln@.len() == ns,
                pi@.len() == nlm,
                x@.len() == q,
                q == nlm + nc + 1 + (if tvar { 1int } else { 0int }),
                0 <= jd <= ns,
            decreases ns - jd,
        {
            if active[jd] {
                match species[jd].phase {
                    Phase::Gas => {
                        let mut corr = dlnn.sub(gpot[jd]);
                        let mut ii: usize = 0;
                        while ii < nlm
                            invariant
                                comp@.len() == ns,
                                forall|j3: int|
                                    0 <= j3 < comp@.len() ==> (#[trigger] comp@[j3])@.len() == nlm,
                                pi@.len() == nlm,
                                jd < ns,
                                0 <= ii <= nlm,
                            decreases nlm - ii,
                        {
                            corr = corr.add(comp[jd][ii].mul(pi[ii]));
                            ii += 1;
                        }
                        if tvar {
                            corr = corr.add(hvec[jd].mul(dlnt));
                        }
                        dln[jd] = corr;
                        let a = corr.abs();
                        if a.v > maxstep.v {
                            maxstep = a;
                        }
                    },
                    Phase::Condensed => {},
                }
            }
            jd += 1;
        }
        let lambda = if maxstep.v <= cfg.step_limit.v {
            Fx::one()
        } else {
            cfg.step_limit.div(maxstep)
        };

        // (d) Apply the damped correction.
        let mut changed = false;
        let mut ju: usize = 0;
        while ju < ns
            invariant
                ns == species@.len(),
                nmol@.len() == ns,
                lnn@.len() == ns,
                active@.len() == ns,
                cond_out@.len() == ns,
                dln@.len() == ns,
                x@.len() == q,
                q == nlm + nc + 1 + (if tvar { 1int } else { 0int }),
                nc == condlist@.len(),
                forall|c: int| 0 <= c < condlist@.len() ==> (#[trigger] condlist@[c]) < ns,
                0 <= ju <= ns,
                forall|j3: int| 0 <= j3 < ns ==> (#[trigger] nmol@[j3]).v >= 0,
                gas_ln_consistent(species@, nmol@, lnn@),
                forall|j3: int|
                    0 <= j3 < ns ==> (species@[j3].phase == Phase::Condensed && (
                    #[trigger] nmol@[j3]).v > 0 ==> active@[j3]),
            decreases ns - ju,
        {
            if active[ju] {
                match species[ju].phase {
                    Phase::Gas => {
                        let nl = lnn[ju].add(lambda.mul(dln[ju]));
                        lnn[ju] = nl;
                        nmol[ju] = nl.exp();
                    },
                    Phase::Condensed => {},
                }
            }
            ju += 1;
        }
        // Condensed corrections are direct mole increments; a phase
        // driven nonpositive leaves the active set.
        let mut cu: usize = 0;
        while cu < nc
            invariant
                ns == species@.len(),
                nmol@.len() == ns,
                active@.len() == ns,
                cond_out@.len() == ns,
                x@.len() == q,
                q == nlm + nc + 1 + (if tvar { 1int } else { 0int }),
                nc == condlist@.len(),
                forall|c: int| 0 <= c < condlist@.len() ==> (#[trigger] condlist@[c]) < ns,
                forall|c: int|
                    0 <= c < condlist@.len() ==> species@[#[trigger] condlist@[c] as int].phase
                        == Phase::Condensed,
                forall|c1: int, c2: int|
                    0 <= c1 < c2 < condlist@.len() ==> condlist@[c1] < condlist@[c2],
                forall|c: int| cu <= c < nc ==> active@[#[trigger] condlist@[c] as int],
                0 <= cu <= nc,
                forall|j3: int| 0 <= j3 < ns ==> (#[trigger] nmol@[j3]).v >= 0,
                gas_ln_consistent(species@, nmol@, lnn@),
                active_cond_count(species@, active@, ns as int) <= cfg.max_cond as int,
                forall|j3: int|
                    0 <= j3 < ns ==> (species@[j3].phase == Phase::Condensed && (
                    #[trigger] nmol@[j3]).v > 0 ==> active@[j3]),
            decreases nc - cu,
        {
            let sp = condlist[cu];
            let nv = nmol[sp].add(lambda.mul(x[nlm + cu]));
            if nv.v <= 0 {
                nmol[sp] = Fx::zero();
                let ghost pa = active@;
                active[sp] = false;
                cond_out[sp] = true;
                changed = true;
                proof {
                    lemma_active_count_update(species@, pa, ns as int, sp as int, false);
                }
            } else {
                nmol[sp] = nv;
            }
            cu += 1;
        }
        lnntot = lnntot.add(lambda.mul(dlnn));
        ntot = lnntot.exp();
        if tvar {
            lnt = lnt.add(lambda.mul(dlnt));
            t = lnt.exp();
        }

        // (e) Trace removal: gas species below the trace fraction of
        // the total leave the active set.
        let trace_abs = cfg.trace.mul(ntot);
        let mut jt: usize = 0;
        while jt < ns
            invariant
                ns == species@.len(),
                nmol@.len() == ns,
                active@.len() == ns,
                0 <= jt <= ns,
                forall|j3: int| 0 <= j3 < ns ==> (#[trigger] nmol@[j3]).v >= 0,
                gas_ln_consistent(species@, nmol@, lnn@),
                active_cond_count(species@, active@, ns as int) <= cfg.max_cond as int,
                forall|j3: int|
                    0 <= j3 < ns ==> (species@[j3].phase == Phase::Condensed && (
                    #[trigger] nmol@[j3]).v > 0 ==> active@[j3]),
            decreases ns - jt,
        {
            if active[jt] {
                match species[jt].phase {
                    Phase::Gas => {
                        if nmol[jt].v < trace_abs.v {
                            let ghost pa = active@;
                            active[jt] = false;
                            nmol[jt] = Fx::zero();
                            changed = true;
                            proof {
                                lemma_active_count_update(
                                    species@, pa, ns as int, jt as int, false);
                            }
                        }
                    },
                    Phase::Condensed => {},
                }
            }
            jt += 1;
        }

        // (f) Reintroduction: an inactive gas species whose chemical
        // potential implies a mole number above the trace threshold
        // returns, at most once per point.
        let mut jr: usize = 0;
        while jr < ns
            invariant
                ns == species@.len(),
                comp@.len() == ns,
                forall|j3: int| 0 <= j3 < comp@.len() ==> (#[trigger] comp@[j3])@.len() == nlm,
                nmol@.len() == ns,
                lnn@.len() == ns,
                active@.len() == ns,
                frozen@.len() == ns,
                reintro@.len() == ns,
                pi@.len() == nlm,
                0 <= jr <= ns,
                forall|j3: int| 0 <= j3 < ns ==> (#[trigger] nmol@[j3]).v >= 0,
                gas_ln_consistent(species@, nmol@, lnn@),
                active_cond_count(species@, active@, ns as int) <= cfg.max_cond as int,
                forall|j3: int|
                    0 <= j3 < ns ==> (species@[j3].phase == Phase::Condensed && (
                    #[trigger] nmol@[j3]).v > 0 ==> active@[j3]),
            decreases ns - jr,
        {
            let is_gas = match species[jr].phase {
                Phase::Gas => true,
                Phase::Condensed => false,
            };
            if is_gas && !active[jr] && !frozen[jr] && !reintro[jr] {
                match properties(&species[jr], t) {
                    Ok(p) => {
                        let g0 = p.h.sub(p.s);
                        let mut lnw = lnntot.sub(g0).sub(lnp);
                        let mut ii: usize = 0;
                        while ii < nlm
                            invariant
                                comp@.len() == ns,
                                forall|j3: int|
                                    0 <= j3 < comp@.len() ==> (#[trigger] comp@[j3])@.len() == nlm,
                                pi@.len() == nlm,
                                jr < ns,
                                0 <= ii <= nlm,
                            decreases nlm - ii,
                        {
                            lnw = lnw.add(comp[jr][ii].mul(pi[ii]));
                            ii += 1;
                        }
                        let nw = lnw.exp();
                        if nw.v >= trace_abs.v {
                            let ghost pa = active@;
                            active[jr] = true;
                            lnn[jr] = lnw;
                            nmol[jr] = nw;
                            reintro[jr] = true;
                            changed = true;
                            proof {
                                lemma_active_count_update(
                                    species@, pa, ns as int, jr as int, true);
                            }
                        }
                    },
                    Err(_) => {},
                }
            }
            jr += 1;
        }

        // (g) Condensed-phase activation: among the inactive condensed
        // species whose activity criterion Σ a_ic π_i ≥ g_c is met, the
        // one of most negative Gibbs energy enters, within the cap.
        let mut ncond_active: usize = 0;
        let mut ja: usize = 0;
        while ja < ns
            invariant
                ns == species@.len(),
                active@.len() == ns,
                0 <= ja <= ns,
                ncond_active <= ja,
                ncond_active as int == active_cond_count(species@, active@, ja as int),
            decreases ns - ja,
        {
            if active[ja] {
                match species[ja].phase {
                    Phase::Condensed => {
                        ncond_active = ncond_active + 1;
                    },
                    Phase::Gas => {},
                }
            }
            ja += 1;
        }
        if ncond_active < cfg.max_cond {
            let mut best: usize = ns;
            let mut best_g = Fx::zero();
            let mut jc: usize = 0;
            while jc < ns
                invariant
                    ns == species@.len(),
                    comp@.len() == ns,
                    forall|j3: int|
                        0 <= j3 < comp@.len() ==> (#[trigger] comp@[j3])@.len() == nlm,
                    active@.len() == ns,
                    frozen@.len() == ns,
                    cond_out@.len() == ns,
                    pi@.len() == nlm,
                    0 <= jc <= ns,
                    best <= ns,
                    best < ns ==> species@[best as int].phase == Phase::Condensed
                        && !active@[best as int],
                decreases ns - jc,
            {
                let is_cond = match species[jc].phase {
                    Phase::Condensed => true,
                    Phase::Gas => false,
                };
                if is_cond && !active[jc] && !frozen[jc] && !cond_out[jc] {
                    match properties(&species[jc], t) {
                        Ok(p) => {
                            let g0 = p.h.sub(p.s);
                            let mut act = g0.neg();
                            let mut ii: usize = 0;
                            while ii < nlm
                                invariant
                                    comp@.len() == ns,
                                    forall|j3: int|
                                        0 <= j3 < comp@.len() ==> (#[trigger] comp@[j3])@.len()
                                            == nlm,
                                    pi@.len() == nlm,
                                    jc < ns,
                                    0 <= ii <= nlm,
                                decreases nlm - ii,
                            {
                                act = act.add(comp[jc][ii].mul(pi[ii]));
                                ii += 1;
                            }
                            if act.v >= 0 {
                                if best == ns || g0.v < best_g.v {
                                    best = jc;
                                    best_g = g0;
                                }
                            }
                        },
                        Err(_) => {},
                    }
                }
                jc += 1;
            }
            if best < ns {
                let ghost pa = active@;
                active[best] = true;
                nmol[best] = Fx::zero();
                changed = true;
                proof {
                    lemma_active_count_update(species@, pa, ns as int, best as int, true);
                }
            }
        }

        // (h) Convergence test, skipped while the active set is still
        // moving: every damped correction within tolerance, and element
        // balance satisfied.
        if !changed {
            let mut small = lambda.mul(dlnn).abs().v <= cfg.tol.v;
            if tvar && lambda.mul(dlnt).abs().v > cfg.tol.v {
                small = false;
            }
            let mut jv: usize = 0;
            while jv < ns
                invariant
                    ns == species@.len(),
                    active@.len() == ns,
                    dln@.len() == ns,
                    0 <= jv <= ns,
                decreases ns - jv,
            {
                if active[jv] {
                    if lambda.mul(dln[jv]).abs().v > cfg.tol.v {
                        small = false;
                    }
                }
                jv += 1;
            }
            if small {
                if balance_ok_exec(comp, &nmol, &mix.b0, tol_abs) {
                    proof {
                        lemma_cond_count_le(species@, nmol@, active@, ns as int);
                    }
                    return finish(
                        Outcome::Converged,
                        nmol,
                        lnn,
                        pi,
                        ntot,
                        t,
                        &gpot,
                        species,
                        it + 1,
                    );
                }
            }
        }
        it += 1;
    }
    proof {
        lemma_cond_count_le(species@, nmol@, active@, ns as int);
    }
    finish(Outcome::MaxIterationsExceeded, nmol, lnn, pi, ntot, t, &gpot, species, cfg.max_iter)
}

} // verus!
