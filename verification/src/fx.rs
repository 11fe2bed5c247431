//! Saturating fixed-point arithmetic, Q31.32 in an `i64`.
//!
//! A value `x` stands for the real number `x.v / 2^32`.  Every operation
//! is total and deterministic: results outside the carrier saturate to
//! `i64::MAX` / `i64::MIN`, and division by zero saturates by the sign of
//! the dividend.  Each executable operation is pinned to an exact
//! mathematical mirror over `int`, so identical inputs give identical
//! outputs, bit for bit.

use vstd::prelude::*;

verus! {

/// Raw representation of 1.0 (2^32).
pub const SCALE: i64 = 4294967296;

/// Raw representation of ln 2, rounded to nearest.
pub const LN2_RAW: i64 = 2977044472;

/// Arguments at or above this (21.0) make `exp` saturate.
pub const EXP_ARG_HI: i64 = 90194313216;

/// Arguments at or below this (-22.0) make `exp` return zero: the true
/// result would be below the representable resolution.
pub const EXP_ARG_LO: i64 = -94489280512;

/// Fixed-point number: the real value is `v / 2^32`.
#[derive(Clone, Copy, PartialEq, Eq, Structural, Debug)]
pub struct Fx {
    pub v: i64,
}

/// Saturation of a mathematical integer into the `i64` range.
pub open spec fn clip(x: int) -> int {
    if x > i64::MAX as int {
        i64::MAX as int
    } else if x < i64::MIN as int {
        i64::MIN as int
    } else {
        x
    }
}

pub open spec fn abs_i(x: int) -> int {
    if x < 0 {
        -x
    } else {
        x
    }
}

/// Division truncating toward zero (the two operands' magnitudes are
/// divided; the sign follows the usual rule).  Callers keep `b != 0`.
pub open spec fn tdiv(a: int, b: int) -> int {
    let q = abs_i(a) / abs_i(b);
    if (a < 0) != (b < 0) {
        -q
    } else {
        q
    }
}

pub open spec fn fx_add(a: int, b: int) -> int {
    clip(a + b)
}

pub open spec fn fx_sub(a: int, b: int) -> int {
    clip(a - b)
}

pub open spec fn fx_neg(a: int) -> int {
    clip(-a)
}

pub open spec fn fx_abs(a: int) -> int {
    if a >= 0 {
        a
    } else {
        clip(-a)
    }
}

pub open spec fn fx_mul(a: int, b: int) -> int {
    clip(tdiv(a * b, SCALE as int))
}

pub open spec fn fx_div(a: int, b: int) -> int {
    if b == 0 {
        if a >= 0 {
            i64::MAX as int
        } else {
            i64::MIN as int
        }
    } else {
        clip(tdiv(a * (SCALE as int), b))
    }
}

/// Scalar division of the raw representation by a positive integer.
pub open spec fn fx_divi(a: int, m: int) -> int {
    clip(tdiv(a, m))
}

/// Scalar multiplication of the raw representation by an integer.
pub open spec fn fx_muli(a: int, m: int) -> int {
    clip(a * m)
}

/// Scaling an integer into fixed point.
pub open spec fn fx_of_int(n: int) -> int {
    clip(n * (SCALE as int))
}

/// Saturates an `i128` into the `i64` range.
fn clamp128(x: i128) -> (r: i64)
    ensures
        r as int == clip(x as int),
{
    if x > i64::MAX as i128 {
        i64::MAX
    } else if x < i64::MIN as i128 {
        i64::MIN
    } else {
        x as i64
    }
}

/// Divides magnitudes and applies a sign, saturating into `i64`: the
/// result is `clip(-(ma / mb))` when `neg` holds, `clip(ma / mb)` when
/// not.
fn magdiv_clamp(ma: u128, mb: u128, neg: bool) -> (r: i64)
    requires
        mb > 0,
    ensures
        r as int == clip(
            if neg {
                -((ma as int) / (mb as int))
            } else {
                (ma as int) / (mb as int)
            },
        ),
{
    let q: u128 = ma / mb;
    if neg {
        if q >= 9223372036854775808u128 {
            i64::MIN
        } else {
            -(q as i64)
        }
    } else {
        if q > i64::MAX as u128 {
            i64::MAX
        } else {
            q as i64
        }
    }
}

/// Magnitude of an `i128` above `i128::MIN`, as a `u128`.
fn mag128(x: i128) -> (r: u128)
    requires
        x > i128::MIN,
    ensures
        r as int == abs_i(x as int),
{
    if x < 0 {
        (-x) as u128
    } else {
        x as u128
    }
}

impl Fx {
    pub fn zero() -> (r: Fx)
        ensures
            r.v == 0,
    {
        Fx { v: 0 }
    }

    pub fn one() -> (r: Fx)
        ensures
            r.v == SCALE,
    {
        Fx { v: SCALE }
    }

    /// The fixed-point image of the integer `n`.
    pub fn from_int(n: i64) -> (r: Fx)
        ensures
            r.v as int == fx_of_int(n as int),
    {
        proof {
            assert((n as int) * (SCALE as int) <= i128::MAX as int && (n as int) * (SCALE as int)
                > i128::MIN as int) by (nonlinear_arith)
                requires
                    i64::MIN as int <= n as int <= i64::MAX as int,
            ;
        }
        let p: i128 = (n as i128) * (SCALE as i128);
        Fx { v: clamp128(p) }
    }

    pub fn add(self, o: Fx) -> (r: Fx)
        ensures
            r.v as int == fx_add(self.v as int, o.v as int),
    {
        let s: i128 = self.v as i128 + o.v as i128;
        Fx { v: clamp128(s) }
    }

    pub fn sub(self, o: Fx) -> (r: Fx)
        ensures
            r.v as int == fx_sub(self.v as int, o.v as int),
    {
        let s: i128 = self.v as i128 - o.v as i128;
        Fx { v: clamp128(s) }
    }

    pub fn neg(self) -> (r: Fx)
        ensures
            r.v as int == fx_neg(self.v as int),
    {
        let s: i128 = -(self.v as i128);
        Fx { v: clamp128(s) }
    }

    pub fn abs(self) -> (r: Fx)
        ensures
            r.v as int == fx_abs(self.v as int),
    {
        if self.v >= 0 {
            self
        } else {
            self.neg()
        }
    }

    pub fn mul(self, o: Fx) -> (r: Fx)
        ensures
            r.v as int == fx_mul(self.v as int, o.v as int),
    {
        proof {
            assert((self.v as int) * (o.v as int) < i128::MAX as int && (self.v as int) * (
            o.v as int) > i128::MIN as int) by (nonlinear_arith)
                requires
                    i64::MIN as int <= self.v as int <= i64::MAX as int,
                    i64::MIN as int <= o.v as int <= i64::MAX as int,
            ;
        }
        let p: i128 = (self.v as i128) * (o.v as i128);
        let neg: bool = p < 0;
        let ma: u128 = mag128(p);
        Fx { v: magdiv_clamp(ma, SCALE as u128, neg) }
    }

    pub fn div(self, o: Fx) -> (r: Fx)
        ensures
            r.v as int == fx_div(self.v as int, o.v as int),
    {
        if o.v == 0 {
            if self.v >= 0 {
                Fx { v: i64::MAX }
            } else {
                Fx { v: i64::MIN }
            }
        } else {
            let ma64: u128 = if self.v < 0 {
                (-(self.v as i128)) as u128
            } else {
                self.v as u128
            };
            proof {
                assert((ma64 as int) * (SCALE as int) < u128::MAX as int) by (nonlinear_arith)
                    requires
                        0 <= ma64 as int <= 9223372036854775808,
                ;
            }
            let ma: u128 = ma64 * (SCALE as u128);
            let mb: u128 = if o.v < 0 {
                (-(o.v as i128)) as u128
            } else {
                o.v as u128
            };
            let neg: bool = (self.v < 0) != (o.v < 0);
            proof {
                lemma_abs_mul_scale(self.v as int);
            }
            Fx { v: magdiv_clamp(ma, mb, neg) }
        }
    }

    /// Divides the raw representation by a positive integer (exact
    /// scalar division, truncating toward zero).
    pub fn divi(self, m: i64) -> (r: Fx)
        requires
            m > 0,
        ensures
            r.v as int == fx_divi(self.v as int, m as int),
    {
        let ma: u128 = if self.v < 0 {
            (-(self.v as i128)) as u128
        } else {
            self.v as u128
        };
        Fx { v: magdiv_clamp(ma, m as u128, self.v < 0) }
    }

    /// Multiplies the raw representation by an integer, saturating.
    pub fn muli(self, m: i64) -> (r: Fx)
        ensures
            r.v as int == fx_muli(self.v as int, m as int),
    {
        proof {
            assert((self.v as int) * (m as int) < i128::MAX as int && (self.v as int) * (
            m as int) > i128::MIN as int) by (nonlinear_arith)
                requires
                    i64::MIN as int <= self.v as int <= i64::MAX as int,
                    i64::MIN as int <= m as int <= i64::MAX as int,
            ;
        }
        let p: i128 = (self.v as i128) * (m as i128);
        Fx { v: clamp128(p) }
    }
}

/// The magnitude of `a * SCALE` is the scaled magnitude of `a`, and the
/// product keeps the sign of `a`.
proof fn lemma_abs_mul_scale(a: int)
    ensures
        abs_i(a * (SCALE as int)) == abs_i(a) * (SCALE as int),
        (a * (SCALE as int) < 0) == (a < 0),
{
    assert(abs_i(a * (SCALE as int)) == abs_i(a) * (SCALE as int)) by (nonlinear_arith);
    assert((a * (SCALE as int) < 0) == (a < 0)) by (nonlinear_arith);
}

/// A product of nonnegative factors stays nonnegative through `fx_mul`.
proof fn lemma_fx_mul_nonneg(a: int, b: int)
    requires
        a >= 0,
        b >= 0,
    ensures
        fx_mul(a, b) >= 0,
{
    assert(a * b >= 0) by (nonlinear_arith)
        requires
            a >= 0 && b >= 0,
    ;
    vstd::arithmetic::div_mod::lemma_div_pos_is_pos(a * b, SCALE as int);
}

proof fn lemma_tdiv_nonneg(a: int, m: int)
    requires
        a >= 0,
        m > 0,
    ensures
        tdiv(a, m) >= 0,
        fx_divi(a, m) >= 0,
{
    vstd::arithmetic::div_mod::lemma_div_pos_is_pos(a, m);
}

/// Truncated Taylor tail of `e^r`, Horner style: the value of
/// `1 + (r/i)(1 + (r/(i+1))(... (1 + r/13)...))` in fixed point.
pub open spec fn spec_exp_series(r: int, i: int) -> int
    decreases 14 - i,
{
    if i >= 14 {
        SCALE as int
    } else {
        fx_add(SCALE as int, fx_mul(fx_divi(r, i), spec_exp_series(r, i + 1)))
    }
}

fn exp_series(r: Fx, i: u32) -> (res: Fx)
    requires
        1 <= i <= 14,
        r.v >= 0,
    ensures
        res.v as int == spec_exp_series(r.v as int, i as int),
        res.v >= 0,
    decreases 14 - i,
{
    if i >= 14 {
        Fx::one()
    } else {
        let tail = exp_series(r, i + 1);
        let frac = r.divi(i as i64);
        proof {
            lemma_tdiv_nonneg(r.v as int, i as int);
            lemma_fx_mul_nonneg(frac.v as int, tail.v as int);
        }
        let term = frac.mul(tail);
        Fx::one().add(term)
    }
}

/// Multiplication of the raw value by `2^k` (division for negative `k`),
/// one saturating doubling or truncating halving at a time.
pub open spec fn spec_scale2(v: int, k: int) -> int
    decreases abs_i(k),
{
    if k == 0 {
        v
    } else if k > 0 {
        spec_scale2(clip(v * 2), k - 1)
    } else {
        spec_scale2(fx_divi(v, 2), k + 1)
    }
}

fn scale2(x: Fx, k: i64) -> (r: Fx)
    requires
        -64 <= k <= 64,
    ensures
        r.v as int == spec_scale2(x.v as int, k as int),
        x.v >= 0 ==> r.v >= 0,
    decreases abs_i(k as int),
{
    if k == 0 {
        x
    } else if k > 0 {
        scale2(x.muli(2), k - 1)
    } else {
        proof {
            if x.v >= 0 {
                lemma_tdiv_nonneg(x.v as int, 2);
            }
        }
        scale2(x.divi(2), k + 1)
    }
}

/// Floor division of `x` by `LN2_RAW`.
fn floor_div_ln2(x: i64) -> (k: i64)
    requires
        EXP_ARG_LO < x < EXP_ARG_HI,
    ensures
        k as int == (x as int) / (LN2_RAW as int),
        -32 <= k <= 31,
{
    if x >= 0 {
        let q: u64 = (x as u64) / (LN2_RAW as u64);
        proof {
            vstd::arithmetic::div_mod::lemma_div_is_ordered(
                x as int, (EXP_ARG_HI - 1) as int, LN2_RAW as int);
        }
        q as i64
    } else {
        let m: u64 = (-x) as u64;
        let q: u64 = m / (LN2_RAW as u64);
        let rem: u64 = m % (LN2_RAW as u64);
        proof {
            vstd::arithmetic::div_mod::lemma_fundamental_div_mod(m as int, LN2_RAW as int);
            vstd::arithmetic::div_mod::lemma_div_is_ordered(
                m as int, (-(EXP_ARG_LO as int) ) as int, LN2_RAW as int);
        }
        if rem == 0 {
            proof {
                vstd::arithmetic::div_mod::lemma_fundamental_div_mod_converse(
                    x as int, LN2_RAW as int, -(q as int), 0);
            }
            -(q as i64)
        } else {
            proof {
                vstd::arithmetic::div_mod::lemma_fundamental_div_mod_converse(
                    x as int, LN2_RAW as int, -(q as int) - 1, (LN2_RAW as int) - (rem as int));
            }
            -(q as i64) - 1
        }
    }
}

/// The exponential `e^x` in fixed point: saturating above `EXP_ARG_HI`,
/// zero below `EXP_ARG_LO`, otherwise `2^k * e^r` with `x = k ln2 + r`,
/// `0 <= r < ln2`.
pub open spec fn fx_exp(x: int) -> int {
    if x >= EXP_ARG_HI as int {
        i64::MAX as int
    } else if x <= EXP_ARG_LO as int {
        0
    } else {
        let k = x / (LN2_RAW as int);
        let r = x - k * (LN2_RAW as int);
        spec_scale2(spec_exp_series(r, 1), k)
    }
}

/// Normalization of a small positive raw value: doubles until the value
/// reaches `[SCALE, 2*SCALE)`, counting the doublings (negatively).
pub open spec fn spec_norm_up(v: int, k: int) -> (int, int)
    decreases (if v < SCALE as int { SCALE as int - v } else { 0 }),
{
    if v <= 0 {
        (v, k)
    } else if v < SCALE as int {
        spec_norm_up(v * 2, k - 1)
    } else {
        (v, k)
    }
}

/// Normalization of a large raw value: halves until the value falls in
/// `[SCALE, 2*SCALE)`, counting the halvings.
pub open spec fn spec_norm_down(v: int, k: int) -> (int, int)
    decreases (if v >= 0 { v } else { 0 }),
    via spec_norm_down_dec
{
    if v >= 2 * (SCALE as int) {
        spec_norm_down(fx_divi(v, 2), k + 1)
    } else {
        (v, k)
    }
}

#[via_fn]
proof fn spec_norm_down_dec(v: int, k: int) {
    if v >= 2 * (SCALE as int) {
        lemma_tdiv_nonneg(v, 2);
        vstd::arithmetic::div_mod::lemma_div_is_strictly_smaller(v, 2);
    }
}

fn ln_norm(v: i64) -> (r: (i64, i64))
    requires
        v > 0,
    ensures
        (r.0 as int, r.1 as int) == (if (v as int) < SCALE as int {
            spec_norm_up(v as int, 0)
        } else {
            spec_norm_down(v as int, 0)
        }),
        -64 <= r.1 <= 64,
{
    let ghost v0 = v as int;
    if v < SCALE {
        let mut vv: i64 = v;
        let mut kk: i64 = 0;
        proof {
            vstd::arithmetic::power2::lemma2_to64();
        }
        while vv < SCALE
            invariant
                0 < vv < SCALE * 2,
                -63 <= kk <= 0,
                vv as int >= vstd::arithmetic::power2::pow2((-kk) as nat),
                spec_norm_up(v0, 0) == spec_norm_up(vv as int, kk as int),
            decreases (if vv < SCALE { SCALE - vv } else { 0 }),
        {
            proof {
                vstd::arithmetic::power2::lemma2_to64();
                vstd::arithmetic::power2::lemma_pow2_unfold((-(kk - 1)) as nat);
                if -kk >= 32 {
                    vstd::arithmetic::power2::lemma_pow2_strictly_increases(32, (-kk) as nat);
                }
            }
            vv = vv * 2;
            kk = kk - 1;
        }
        (vv, kk)
    } else {
        let mut vv: i64 = v;
        let mut kk: i64 = 0;
        proof {
            vstd::arithmetic::power2::lemma2_to64();
            assert((vv as int) * (vstd::arithmetic::power2::pow2(0) as int) == vv as int)
                by (nonlinear_arith)
                requires
                    vstd::arithmetic::power2::pow2(0) == 1,
            ;
        }
        while vv >= 2 * SCALE
            invariant
                SCALE <= vv,
                0 <= kk <= 63,
                (vv as int) * vstd::arithmetic::power2::pow2(kk as nat) as int
                    <= 2 * (i64::MAX as int),
                spec_norm_down(v as int, 0) == spec_norm_down(vv as int, kk as int),
            decreases vv,
        {
            let ghost p = vstd::arithmetic::power2::pow2(kk as nat) as int;
            let nv: i64 = vv / 2;
            proof {
                vstd::arithmetic::power2::lemma2_to64();
                vstd::arithmetic::power2::lemma_pow2_unfold((kk + 1) as nat);
                vstd::arithmetic::power2::lemma_pow2_pos(kk as nat);
                lemma_tdiv_nonneg(vv as int, 2);
                // (vv/2) * 2 <= vv, so (vv/2) * pow2(kk+1) <= vv * pow2(kk)
                assert((nv as int) * (2 * p) == ((nv as int) * 2) * p) by (nonlinear_arith);
                vstd::arithmetic::mul::lemma_mul_inequality((nv as int) * 2, vv as int, p);
                if kk + 1 > 63 {
                    assert((vv as int) * p >= SCALE as int * vstd::arithmetic::power2::pow2(
                        kk as nat) as int) by {
                        vstd::arithmetic::mul::lemma_mul_inequality(
                            SCALE as int, vv as int, p);
                    }
                    vstd::arithmetic::power2::lemma_pow2_adds(32, kk as nat);
                    vstd::arithmetic::power2::lemma_pow2_strictly_increases(64, (kk + 32) as nat);
                    assert(false);
                }
                assert(fx_divi(vv as int, 2) == nv as int);
            }
            vv = nv;
            kk = kk + 1;
        }
        (vv, kk)
    }
}

/// Odd-power Horner tail for `atanh`: the value of
/// `1/(2i-1) + z^2 * (1/(2i+1) + ...)` in fixed point.
pub open spec fn spec_atanh_acc(zsq: int, i: int) -> int
    decreases 11 - i,
{
    if i >= 11 {
        0
    } else {
        fx_add(fx_divi(SCALE as int, 2 * i - 1), fx_mul(zsq, spec_atanh_acc(zsq, i + 1)))
    }
}

fn atanh_acc(zsq: Fx, i: u32) -> (res: Fx)
    requires
        1 <= i <= 11,
    ensures
        res.v as int == spec_atanh_acc(zsq.v as int, i as int),
    decreases 11 - i,
{
    if i >= 11 {
        Fx::zero()
    } else {
        let tail = atanh_acc(zsq, i + 1);
        let c = Fx::one().divi((2 * i - 1) as i64);
        c.add(zsq.mul(tail))
    }
}

/// The natural logarithm in fixed point: `i64::MIN` (standing for
/// negative infinity) on nonpositive arguments, otherwise
/// `k ln2 + 2 atanh((m - 1)/(m + 1))` with the argument normalized to
/// `m * 2^k`, `1 <= m < 2`.
pub open spec fn fx_ln(x: int) -> int {
    if x <= 0 {
        i64::MIN as int
    } else {
        let nk = if x < SCALE as int {
            spec_norm_up(x, 0)
        } else {
            spec_norm_down(x, 0)
        };
        let z = fx_div(fx_sub(nk.0, SCALE as int), fx_add(nk.0, SCALE as int));
        let lnm = fx_muli(fx_mul(z, spec_atanh_acc(fx_mul(z, z), 1)), 2);
        fx_add(lnm, clip(nk.1 * (LN2_RAW as int)))
    }
}

impl Fx {
    /// The exponential of `self`, exactly as `fx_exp` states it.
    pub fn exp(self) -> (r: Fx)
        ensures
            r.v as int == fx_exp(self.v as int),
            r.v >= 0,
    {
        if self.v >= EXP_ARG_HI {
            Fx { v: i64::MAX }
        } else if self.v <= EXP_ARG_LO {
            Fx { v: 0 }
        } else {
            let k = floor_div_ln2(self.v);
            let kl: i64 = k * LN2_RAW;
            proof {
                vstd::arithmetic::div_mod::lemma_fundamental_div_mod(
                    self.v as int, LN2_RAW as int);
            }
            let r = self.v - kl;
            let s = exp_series(Fx { v: r }, 1);
            scale2(s, k)
        }
    }

    /// The natural logarithm of `self`, exactly as `fx_ln` states it.
    pub fn ln(self) -> (r: Fx)
        ensures
            r.v as int == fx_ln(self.v as int),
    {
        if self.v <= 0 {
            Fx { v: i64::MIN }
        } else {
            let nk = ln_norm(self.v);
            let m = Fx { v: nk.0 };
            let z = m.sub(Fx::one()).div(m.add(Fx::one()));
            let zsq = z.mul(z);
            let lnm = z.mul(atanh_acc(zsq, 1)).muli(2);
            let p: i128 = (nk.1 as i128) * (LN2_RAW as i128);
            let kl = Fx { v: clamp128(p) };
            lnm.add(kl)
        }
    }
}

} // verus!
