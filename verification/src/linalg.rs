//! Gaussian elimination with partial pivoting, in fixed point.
//!
//! The equilibrium iteration reduces to one linear system per step;
//! this module solves the augmented system in place.  The whole
//! algorithm — pivot selection, row swap, elimination, back
//! substitution — is pinned to an exact specification (`spec_gauss`),
//! so the solution and the singularity report (which column's best
//! remaining pivot magnitude fell below the caller's threshold) are
//! both fixed by the contract.

use vstd::prelude::*;
use crate::fx::{Fx, fx_sub, fx_mul, fx_div, fx_abs};

verus! {

/// An augmented matrix: `q` rows of `q + 1` columns.
pub open spec fn mat_wf(m: Seq<Vec<Fx>>, q: int) -> bool {
    m.len() == q && forall|i: int| 0 <= i < q ==> (#[trigger] m[i])@.len() == q + 1
}

/// The rows of the matrix as mathematical sequences.
pub open spec fn rows_of(a: Seq<Vec<Fx>>) -> Seq<Seq<Fx>> {
    a.map_values(|r: Vec<Fx>| r@)
}

/// Indexing through the row view.
proof fn lemma_row(a: Seq<Vec<Fx>>, i: int)
    requires
        0 <= i < a.len(),
    ensures
        rows_of(a)[i] == a[i]@,
{
}

pub open spec fn fsub(a: Fx, b: Fx) -> Fx {
    Fx { v: fx_sub(a.v as int, b.v as int) as i64 }
}

pub open spec fn fmul(a: Fx, b: Fx) -> Fx {
    Fx { v: fx_mul(a.v as int, b.v as int) as i64 }
}

pub open spec fn fdiv(a: Fx, b: Fx) -> Fx {
    Fx { v: fx_div(a.v as int, b.v as int) as i64 }
}

/// The row in `r..q` whose entry in column `k` has the largest
/// magnitude, scanning upward and keeping the earliest maximum;
/// carries the best row and its magnitude through the scan.
pub open spec fn spec_pivot(m: Seq<Seq<Fx>>, k: int, r: int, q: int, best: int, bestv: int) -> (
    int,
    int,
)
    decreases q - r,
{
    if r >= q {
        (best, bestv)
    } else {
        let cand = fx_abs(m[r][k].v as int);
        if cand > bestv {
            spec_pivot(m, k, r + 1, q, r, cand)
        } else {
            spec_pivot(m, k, r + 1, q, best, bestv)
        }
    }
}

/// One eliminated row: from column `k` on, the target minus
/// `target[k]/pivot[k]` times the pivot row.
pub open spec fn spec_elim_row(pr: Seq<Fx>, tr: Seq<Fx>, k: int) -> Seq<Fx> {
    let factor = fdiv(tr[k], pr[k]);
    Seq::new(
        tr.len(),
        |c: int|
            if c < k {
                tr[c]
            } else {
                fsub(tr[c], fmul(factor, pr[c]))
            },
    )
}

/// Elimination of every row below `k` against pivot row `k`.
pub open spec fn spec_elim_below(m: Seq<Seq<Fx>>, k: int, rr: int, q: int) -> Seq<Seq<Fx>>
    decreases q - rr,
{
    if rr >= q {
        m
    } else {
        spec_elim_below(m.update(rr, spec_elim_row(m[k], m[rr], k)), k, rr + 1, q)
    }
}

/// The forward phase: per column, pick the largest remaining pivot;
/// if even its magnitude is below `eps` the system is singular at that
/// column, otherwise swap it up and eliminate below it.
pub open spec fn spec_forward(m: Seq<Seq<Fx>>, k: int, q: int, eps: int) -> Result<
    Seq<Seq<Fx>>,
    int,
>
    decreases q - k,
{
    if k >= q {
        Ok(m)
    } else {
        let pv = spec_pivot(m, k, k + 1, q, k, fx_abs(m[k][k].v as int));
        if pv.1 < eps {
            Err(k)
        } else {
            let sw = m.update(k, m[pv.0]).update(pv.0, m[k]);
            spec_forward(spec_elim_below(sw, k, k + 1, q), k + 1, q, eps)
        }
    }
}

/// The running back-substitution sum of one row: the right-hand side
/// minus the already-solved entries' contributions, in scan order.
pub open spec fn spec_back_sum(m: Seq<Seq<Fx>>, x: Seq<Fx>, row: int, c: int, q: int, acc: Fx) -> Fx
    decreases q - c,
{
    if c >= q {
        acc
    } else {
        spec_back_sum(m, x, row, c + 1, q, fsub(acc, fmul(m[row][c], x[c])))
    }
}

/// Back substitution from row `k - 1` down to row 0.
pub open spec fn spec_back(m: Seq<Seq<Fx>>, x: Seq<Fx>, k: int, q: int) -> Seq<Fx>
    decreases k,
{
    if k <= 0 {
        x
    } else {
        let row = k - 1;
        let s = spec_back_sum(m, x, row, row + 1, q, m[row][q]);
        spec_back(m, x.update(row, fdiv(s, m[row][row])), row, q)
    }
}

pub open spec fn zero_vec(q: int) -> Seq<Fx> {
    Seq::new(q as nat, |i: int| Fx { v: 0 })
}

/// What solving the augmented system means: forward elimination, then
/// back substitution; or the first column whose best remaining pivot
/// magnitude is below `eps`.
pub open spec fn spec_gauss(m: Seq<Seq<Fx>>, q: int, eps: int) -> Result<Seq<Fx>, int> {
    match spec_forward(m, 0, q, eps) {
        Err(c) => Err(c),
        Ok(m2) => Ok(spec_back(m2, zero_vec(q), q, q)),
    }
}

/// The pivot scan returns a magnitude no smaller than its running best
/// and than any candidate it scans.
proof fn lemma_pivot_bounds(m: Seq<Seq<Fx>>, k: int, r: int, q: int, best: int, bestv: int)
    ensures
        ({
            let pv = spec_pivot(m, k, r, q, best, bestv);
            pv.1 >= bestv && (forall|rr: int|
                r <= rr < q ==> pv.1 >= fx_abs(m[rr][k].v as int))
        }),
    decreases q - r,
{
    if r < q {
        let cand = fx_abs(m[r][k].v as int);
        if cand > bestv {
            lemma_pivot_bounds(m, k, r + 1, q, r, cand);
        } else {
            lemma_pivot_bounds(m, k, r + 1, q, best, bestv);
        }
    }
}

/// The forward phase only ever blames the column it is working on or a
/// later one.
proof fn lemma_forward_err_at_or_after(m: Seq<Seq<Fx>>, k: int, q: int, eps: int)
    ensures
        spec_forward(m, k, q, eps) matches Err(c) ==> k <= c < q,
    decreases q - k,
{
    if k < q {
        let pv = spec_pivot(m, k, k + 1, q, k, fx_abs(m[k][k].v as int));
        if pv.1 >= eps {
            let sw = m.update(k, m[pv.0]).update(pv.0, m[k]);
            lemma_forward_err_at_or_after(spec_elim_below(sw, k, k + 1, q), k + 1, q, eps);
        }
    }
}

/// What a singular report means: when forward elimination at column
/// `k` reports `k` itself, the magnitude of every candidate pivot in
/// that column — the diagonal entry and everything below it — is below
/// the threshold, so the constraint at `k` is numerically degenerate.
pub proof fn lemma_singular_means_no_pivot(m: Seq<Seq<Fx>>, k: int, q: int, eps: int)
    requires
        0 <= k < q,
        spec_forward(m, k, q, eps) == Err::<Seq<Seq<Fx>>, int>(k),
    ensures
        forall|rr: int| k <= rr < q ==> fx_abs(m[rr][k].v as int) < eps,
{
    let bv0 = fx_abs(m[k][k].v as int);
    let pv = spec_pivot(m, k, k + 1, q, k, bv0);
    lemma_pivot_bounds(m, k, k + 1, q, k, bv0);
    if pv.1 >= eps {
        let sw = m.update(k, m[pv.0]).update(pv.0, m[k]);
        lemma_forward_err_at_or_after(spec_elim_below(sw, k, k + 1, q), k + 1, q, eps);
        assert(false);
    }
}

/// Copies a row.
fn copy_row(src: &Vec<Fx>) -> (r: Vec<Fx>)
    ensures
        r@ == src@,
{
    let n = src.len();
    let mut r: Vec<Fx> = Vec::new();
    let mut i: usize = 0;
    while i < n
        invariant
            n == src@.len(),
            0 <= i <= n,
            r@ == src@.take(i as int),
        decreases n - i,
    {
        r.push(src[i]);
        proof {
            assert(r@ =~= src@.take(i + 1));
        }
        i += 1;
    }
    proof {
        assert(r@ =~= src@);
    }
    r
}

/// Swaps two rows.
fn swap_rows(a: &mut Vec<Vec<Fx>>, i: usize, j: usize, q: usize)
    requires
        mat_wf(old(a)@, q as int),
        i < q,
        j < q,
    ensures
        mat_wf(final(a)@, q as int),
        rows_of(final(a)@) == rows_of(old(a)@).update(i as int, rows_of(old(a)@)[j as int]).update(
            j as int,
            rows_of(old(a)@)[i as int],
        ),
{
    let ghost r0 = rows_of(old(a)@);
    if i == j {
        proof {
            assert(rows_of(a@) =~~= r0.update(i as int, r0[j as int]).update(
                j as int, r0[i as int]));
        }
        return ;
    }
    let ri = copy_row(&a[i]);
    let rj = copy_row(&a[j]);
    a[i] = rj;
    a[j] = ri;
    proof {
        assert(rows_of(a@) =~~= r0.update(i as int, r0[j as int]).update(j as int, r0[i as int]));
    }
}

/// Solves the augmented system in place, exactly as `spec_gauss`
/// states: `Ok` carries the eliminated system's back-substituted
/// solution, `Err` the first column at which every remaining pivot's
/// magnitude fell below `pivot_eps`.
pub fn gauss_solve(a: &mut Vec<Vec<Fx>>, q: usize, pivot_eps: Fx) -> (r: Result<Vec<Fx>, usize>)
    requires
        mat_wf(old(a)@, q as int),
        q < usize::MAX - 1,
    ensures
        match r {
            Ok(x) => x@.len() == q && spec_gauss(rows_of(old(a)@), q as int, pivot_eps.v as int)
                == Ok::<Seq<Fx>, int>(x@),
            Err(col) => col < q && spec_gauss(rows_of(old(a)@), q as int, pivot_eps.v as int)
                == Err::<Seq<Fx>, int>(col as int),
        },
{
    let ghost m0 = rows_of(old(a)@);
    let eps = pivot_eps;
    let mut k: usize = 0;
    while k < q
        invariant
            mat_wf(a@, q as int),
            q < usize::MAX - 1,
            0 <= k <= q,
            m0 == rows_of(old(a)@),
            spec_forward(m0, 0, q as int, eps.v as int) == spec_forward(
                rows_of(a@),
                k as int,
                q as int,
                eps.v as int,
            ),
            eps == pivot_eps,
        decreases q - k,
    {
        let ghost mk = rows_of(a@);
        // Partial pivoting: the row with the largest magnitude in
        // column k.
        let mut p: usize = k;
        let mut best: Fx = a[k][k].abs();
        let mut r: usize = k + 1;
        proof {
            lemma_row(a@, k as int);
        }
        while r < q
            invariant
                mat_wf(a@, q as int),
                mk == rows_of(a@),
                k < q,
                k <= p < q,
                k + 1 <= r <= q,
                best.v as int == fx_abs(mk[p as int][k as int].v as int) || (p == k && best.v as int
                    == fx_abs(mk[k as int][k as int].v as int)),
                spec_pivot(mk, k as int, k + 1, q as int, k as int, fx_abs(
                    mk[k as int][k as int].v as int,
                )) == spec_pivot(mk, k as int, r as int, q as int, p as int, best.v as int),
            decreases q - r,
        {
            proof {
                lemma_row(a@, r as int);
            }
            let cand = a[r][k].abs();
            if cand.v > best.v {
                best = cand;
                p = r;
            }
            r += 1;
        }
        if best.v < eps.v {
            proof {
                assert(spec_forward(mk, k as int, q as int, eps.v as int) == Err::<
                    Seq<Seq<Fx>>,
                    int,
                >(k as int));
            }
            return Err(k);
        }
        swap_rows(a, k, p, q);
        let ghost sw = rows_of(a@);
        proof {
            assert(sw =~~= mk.update(k as int, mk[p as int]).update(p as int, mk[k as int]));
        }
        let mut rr: usize = k + 1;
        while rr < q
            invariant
                mat_wf(a@, q as int),
                q < usize::MAX - 1,
                k < q,
                k + 1 <= rr <= q,
                spec_elim_below(sw, k as int, k + 1, q as int) == spec_elim_below(
                    rows_of(a@),
                    k as int,
                    rr as int,
                    q as int,
                ),
            decreases q - rr,
        {
            let ghost mr = rows_of(a@);
            let ghost tr0 = mr[rr as int];
            proof {
                lemma_row(a@, rr as int);
                lemma_row(a@, k as int);
            }
            let factor = a[rr][k].div(a[k][k]);
            proof {
                assert(factor == fdiv(tr0[k as int], mr[k as int][k as int]));
                assert(spec_elim_row(mr[k as int], tr0, k as int).take(k as int) + tr0.skip(
                    k as int) =~= tr0);
            }
            let mut c: usize = k;
            while c < q + 1
                invariant
                    mat_wf(a@, q as int),
                    q < usize::MAX - 1,
                    k < q,
                    k < rr < q,
                    k <= c <= q + 1,
                    mr.len() == q,
                    tr0.len() == q + 1,
                    factor == fdiv(tr0[k as int], mr[k as int][k as int]),
                    forall|rj: int| 0 <= rj < q && rj != rr ==> (#[trigger] a@[rj])@ == mr[rj],
                    a@[rr as int]@ == spec_elim_row(mr[k as int], tr0, k as int).take(c as int)
                        + tr0.skip(c as int),
                decreases q + 1 - c,
            {
                proof {
                    assert(a@[k as int]@ == mr[k as int]);
                    assert(a@[rr as int]@[c as int] == tr0[c as int]);
                }
                let v = a[rr][c].sub(factor.mul(a[k][c]));
                proof {
                    assert(v == spec_elim_row(mr[k as int], tr0, k as int)[c as int]);
                }
                a[rr][c] = v;
                proof {
                    assert(a@[rr as int]@ =~= spec_elim_row(mr[k as int], tr0, k as int).take(
                        c + 1) + tr0.skip(c + 1));
                }
                c += 1;
            }
            proof {
                assert(spec_elim_row(mr[k as int], tr0, k as int).take(q + 1) + tr0.skip(q + 1)
                    =~= spec_elim_row(mr[k as int], tr0, k as int));
                assert(rows_of(a@) =~~= mr.update(
                    rr as int,
                    spec_elim_row(mr[k as int], tr0, k as int),
                ));
            }
            rr += 1;
        }
        k += 1;
    }
    // Back substitution.
    let ghost mfin = rows_of(a@);
    proof {
        assert(spec_forward(m0, 0, q as int, eps.v as int) == Ok::<Seq<Seq<Fx>>, int>(mfin));
    }
    let mut x: Vec<Fx> = Vec::new();
    let mut i: usize = 0;
    while i < q
        invariant
            x@.len() == i,
            0 <= i <= q,
            forall|j: int| 0 <= j < i ==> (#[trigger] x@[j]).v == 0,
        decreases q - i,
    {
        x.push(Fx::zero());
        i += 1;
    }
    proof {
        assert(x@ =~= zero_vec(q as int));
    }
    let mut k2: usize = q;
    while k2 > 0
        invariant
            mat_wf(a@, q as int),
            mfin == rows_of(a@),
            x@.len() == q,
            0 <= k2 <= q,
            spec_back(mfin, zero_vec(q as int), q as int, q as int) == spec_back(
                mfin,
                x@,
                k2 as int,
                q as int,
            ),
        decreases k2,
    {
        let row = k2 - 1;
        let ghost xcur = x@;
        proof {
            lemma_row(a@, row as int);
        }
        let mut sum: Fx = a[row][q];
        let mut c: usize = row + 1;
        while c < q
            invariant
                mat_wf(a@, q as int),
                mfin == rows_of(a@),
                x@ == xcur,
                x@.len() == q,
                row < q,
                row + 1 <= c <= q,
                spec_back_sum(mfin, xcur, row as int, row + 1, q as int, mfin[row as int][q as int])
                    == spec_back_sum(mfin, xcur, row as int, c as int, q as int, sum),
            decreases q - c,
        {
            proof {
                lemma_row(a@, row as int);
            }
            sum = sum.sub(a[row][c].mul(x[c]));
            c += 1;
        }
        let xk = sum.div(a[row][row]);
        proof {
            assert(xk == fdiv(
                spec_back_sum(mfin, xcur, row as int, row + 1, q as int,
                    mfin[row as int][q as int]),
                mfin[row as int][row as int],
            ));
        }
        x[row] = xk;
        proof {
            assert(x@ =~= xcur.update(row as int, xk));
        }
        k2 = row;
    }
    Ok(x)
}

} // verus!
