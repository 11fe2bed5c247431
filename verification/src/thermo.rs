//! Species data model and property evaluator.
//!
//! A species carries one or more temperature segments; each segment
//! stores the seven polynomial coefficients of Cp/R in the NASA form
//! `a1/T^2 + a2/T + a3 + a4 T + a5 T^2 + a6 T^3 + a7 T^4` together with
//! the enthalpy and entropy integration constants.  Evaluation selects
//! the first segment whose range contains the requested temperature and
//! never extrapolates: outside every segment the evaluator fails with
//! `OutOfRange`.

use vstd::prelude::*;
use crate::fx::{Fx, SCALE, fx_add, fx_sub, fx_neg, fx_mul, fx_div, fx_divi, fx_ln};

verus! {

#[derive(Clone, Copy, PartialEq, Eq, Structural, Debug)]
pub enum Phase {
    Gas,
    Condensed,
}

/// One temperature segment of a species' property fit.
#[derive(Clone, Copy, PartialEq, Eq, Structural, Debug)]
pub struct Segment {
    pub t_low: Fx,
    pub t_high: Fx,
    pub a1: Fx,
    pub a2: Fx,
    pub a3: Fx,
    pub a4: Fx,
    pub a5: Fx,
    pub a6: Fx,
    pub a7: Fx,
    /// Enthalpy integration constant (b1/T enters H/RT).
    pub b1: Fx,
    /// Entropy integration constant (enters S/R directly).
    pub b2: Fx,
}

/// One species of the thermodynamic library.
#[derive(Clone, Debug)]
pub struct Species {
    /// Fixed-width 16-byte name token.
    pub name: Vec<u8>,
    pub phase: Phase,
    /// Molecular weight.
    pub mw: Fx,
    pub segments: Vec<Segment>,
}

/// Nondimensional properties at one temperature: Cp/R, H/RT, S/R.
#[derive(Clone, Copy, PartialEq, Eq, Structural, Debug)]
pub struct ThermoProps {
    pub cp: Fx,
    pub h: Fx,
    pub s: Fx,
}

#[derive(Clone, Copy, PartialEq, Eq, Structural, Debug)]
pub enum EvalError {
    /// The requested temperature lies outside every stored segment.
    OutOfRange,
}

pub open spec fn seg_contains(seg: Segment, t: int) -> bool {
    seg.t_low.v as int <= t <= seg.t_high.v as int
}

/// Index of the first segment whose range contains `t`; -1 when none
/// does.
pub open spec fn find_segment(segs: Seq<Segment>, t: int) -> int
    decreases segs.len(),
{
    if segs.len() == 0 {
        -1
    } else if seg_contains(segs[0], t) {
        0
    } else {
        let r = find_segment(segs.drop_first(), t);
        if r < 0 {
            -1
        } else {
            r + 1
        }
    }
}

pub proof fn lemma_find_segment_char(segs: Seq<Segment>, t: int)
    ensures
        ({
            let r = find_segment(segs, t);
            &&& (r == -1 || 0 <= r < segs.len())
            &&& (r == -1 ==> forall|j: int| 0 <= j < segs.len() ==> !seg_contains(segs[j], t))
            &&& (r >= 0 ==> seg_contains(segs[r], t) && (forall|k: int|
                0 <= k < r ==> !seg_contains(segs[k], t)))
        }),
    decreases segs.len(),
{
    if segs.len() > 0 && !seg_contains(segs[0], t) {
        lemma_find_segment_char(segs.drop_first(), t);
        assert(forall|j: int|
            1 <= j < segs.len() ==> #[trigger] segs[j] == segs.drop_first()[j - 1]);
        assert(forall|j: int|
            1 <= j < segs.len() ==> segs[j] == #[trigger] segs.drop_first()[j - 1]);
    }
}

/// The first matching index characterizes `find_segment` exactly.
pub proof fn lemma_find_segment_is(segs: Seq<Segment>, t: int, i: int)
    requires
        0 <= i < segs.len(),
        seg_contains(segs[i], t),
        forall|k: int| 0 <= k < i ==> !seg_contains(segs[k], t),
    ensures
        find_segment(segs, t) == i,
    decreases segs.len(),
{
    if i > 0 {
        assert(forall|j: int|
            1 <= j < segs.len() ==> segs[j] == #[trigger] segs.drop_first()[j - 1]);
        lemma_find_segment_is(segs.drop_first(), t, i - 1);
    }
}

/// Raw values of (Cp/R, H/RT, S/R) from one segment at temperature `t`,
/// exactly as the evaluator computes them in fixed point.  The positive
/// powers are evaluated in Horner form, so no large power of the
/// temperature is ever formed.
pub open spec fn spec_props_at(seg: Segment, t: int) -> (int, int, int) {
    let ti = fx_div(SCALE as int, t);
    let ti2 = fx_mul(ti, ti);
    let lnt = fx_ln(t);
    let a1 = seg.a1.v as int;
    let a2 = seg.a2.v as int;
    let a3 = seg.a3.v as int;
    let a4 = seg.a4.v as int;
    let a5 = seg.a5.v as int;
    let a6 = seg.a6.v as int;
    let a7 = seg.a7.v as int;
    let b1 = seg.b1.v as int;
    let b2 = seg.b2.v as int;
    let c3 = fx_add(a6, fx_mul(t, a7));
    let c2 = fx_add(a5, fx_mul(t, c3));
    let c1 = fx_add(a4, fx_mul(t, c2));
    let cp_poly = fx_mul(t, c1);
    let cp0 = fx_add(fx_mul(a1, ti2), fx_mul(a2, ti));
    let cp = fx_add(fx_add(cp0, a3), cp_poly);
    let d3 = fx_add(fx_divi(a6, 4), fx_mul(t, fx_divi(a7, 5)));
    let d2 = fx_add(fx_divi(a5, 3), fx_mul(t, d3));
    let d1 = fx_add(fx_divi(a4, 2), fx_mul(t, d2));
    let h_poly = fx_mul(t, d1);
    let h0 = fx_add(fx_neg(fx_mul(a1, ti2)), fx_mul(fx_mul(a2, lnt), ti));
    let h = fx_add(fx_add(fx_add(h0, a3), h_poly), fx_mul(b1, ti));
    let e3 = fx_add(fx_divi(a6, 3), fx_mul(t, fx_divi(a7, 4)));
    let e2 = fx_add(fx_divi(a5, 2), fx_mul(t, e3));
    let e1 = fx_add(a4, fx_mul(t, e2));
    let s_poly = fx_mul(t, e1);
    let s0 = fx_sub(fx_neg(fx_divi(fx_mul(a1, ti2), 2)), fx_mul(a2, ti));
    let s = fx_add(fx_add(fx_add(s0, fx_mul(a3, lnt)), s_poly), b2);
    (cp, h, s)
}

/// What `properties` returns: the segment-selected evaluation, or
/// `OutOfRange` when no segment contains `t`.
pub open spec fn spec_properties(segs: Seq<Segment>, t: int) -> Result<(int, int, int), EvalError> {
    let idx = find_segment(segs, t);
    if idx >= 0 {
        Ok(spec_props_at(segs[idx], t))
    } else {
        Err(EvalError::OutOfRange)
    }
}

/// Evaluates one segment at `t` (fixed point, exact mirror of
/// `spec_props_at`).
fn props_at(seg: &Segment, t: Fx) -> (r: ThermoProps)
    ensures
        (r.cp.v as int, r.h.v as int, r.s.v as int) == spec_props_at(*seg, t.v as int),
{
    let ti = Fx::one().div(t);
    let ti2 = ti.mul(ti);
    let lnt = t.ln();
    let c3 = seg.a6.add(t.mul(seg.a7));
    let c2 = seg.a5.add(t.mul(c3));
    let c1 = seg.a4.add(t.mul(c2));
    let cp_poly = t.mul(c1);
    let cp0 = seg.a1.mul(ti2).add(seg.a2.mul(ti));
    let cp = cp0.add(seg.a3).add(cp_poly);
    let d3 = seg.a6.divi(4).add(t.mul(seg.a7.divi(5)));
    let d2 = seg.a5.divi(3).add(t.mul(d3));
    let d1 = seg.a4.divi(2).add(t.mul(d2));
    let h_poly = t.mul(d1);
    let h0 = seg.a1.mul(ti2).neg().add(seg.a2.mul(lnt).mul(ti));
    let h = h0.add(seg.a3).add(h_poly).add(seg.b1.mul(ti));
    let e3 = seg.a6.divi(3).add(t.mul(seg.a7.divi(4)));
    let e2 = seg.a5.divi(2).add(t.mul(e3));
    let e1 = seg.a4.add(t.mul(e2));
    let s_poly = t.mul(e1);
    let s0 = seg.a1.mul(ti2).divi(2).neg().sub(seg.a2.mul(ti));
    let s = s0.add(seg.a3.mul(lnt)).add(s_poly).add(seg.b2);
    ThermoProps { cp, h, s }
}

/// Nondimensional Cp/R, H/RT and S/R of a species at temperature `t`.
///
/// The first segment whose `[t_low, t_high]` range contains `t` is
/// evaluated; when none does the call fails with `OutOfRange` rather
/// than extrapolating.
pub fn properties(sp: &Species, t: Fx) -> (r: Result<ThermoProps, EvalError>)
    ensures
        ({
            let m = spec_properties(sp.segments@, t.v as int);
            match r {
                Ok(p) => m == Ok::<(int, int, int), EvalError>(
                    (p.cp.v as int, p.h.v as int, p.s.v as int)),
                Err(e) => m == Err::<(int, int, int), EvalError>(e),
            }
        }),
{
    let n = sp.segments.len();
    let mut i: usize = 0;
    while i < n
        invariant
            n == sp.segments@.len(),
            0 <= i <= n,
            forall|k: int| 0 <= k < i ==> !seg_contains(sp.segments@[k], t.v as int),
        decreases n - i,
    {
        let seg = &sp.segments[i];
        if seg.t_low.v <= t.v && t.v <= seg.t_high.v {
            proof {
                lemma_find_segment_is(sp.segments@, t.v as int, i as int);
            }
            return Ok(props_at(seg, t));
        }
        i += 1;
    }
    proof {
        lemma_find_segment_char(sp.segments@, t.v as int);
    }
    Err(EvalError::OutOfRange)
}

/// Evaluation is a pure function of the stored segments and the
/// temperature: equal inputs give equal results, bit for bit, on every
/// call.
pub proof fn lemma_properties_deterministic(
    segs1: Seq<Segment>,
    t1: int,
    segs2: Seq<Segment>,
    t2: int,
)
    requires
        segs1 == segs2,
        t1 == t2,
    ensures
        spec_properties(segs1, t1) == spec_properties(segs2, t2),
{
}

/// Exactly outside the union of the stored segments — and only there —
/// evaluation fails with `OutOfRange`; it never extrapolates.
pub proof fn lemma_properties_out_of_range(segs: Seq<Segment>, t: int)
    ensures
        (spec_properties(segs, t) == Err::<(int, int, int), EvalError>(EvalError::OutOfRange))
            <==> (forall|j: int| 0 <= j < segs.len() ==> !seg_contains(segs[j], t)),
{
    lemma_find_segment_char(segs, t);
}

/// Well-formed segment: a nonempty range at positive temperature.
pub open spec fn seg_wf(seg: Segment) -> bool {
    0 < seg.t_low.v <= seg.t_high.v
}

/// Well-formed species: a 16-byte name token, positive molecular
/// weight, and at least one segment; the segments are contiguous and
/// non-overlapping in temperature.
pub open spec fn species_wf(sp: Species) -> bool {
    &&& sp.name@.len() == 16
    &&& sp.mw.v > 0
    &&& sp.segments@.len() >= 1
    &&& forall|i: int| 0 <= i < sp.segments@.len() ==> seg_wf(#[trigger] sp.segments@[i])
    &&& forall|i: int| 0 <= i < sp.segments@.len() - 1
        ==> (#[trigger] sp.segments@[i + 1]).t_low == sp.segments@[i].t_high
}

} // verus!
