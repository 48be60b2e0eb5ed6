//! Dominant-eigenvalue estimation of a non-negative square matrix by power
//! iteration with Rayleigh-quotient estimates and L2 renormalization.
//!
//! The whole iteration is described by the spec function [`pi_spec`]; the
//! executable estimator's contract pins its result to it exactly, so the
//! estimate is deterministic in the matrix, the iteration budget and the
//! tolerance.

use vstd::prelude::*;

use crate::fixed::{all_wf, q_abs, q_add, q_div, q_mul, q_sqrt, q_sub, raws, Fix, FIX_SCALE};

verus! {

broadcast use crate::fixed::lemma_raws_index;

/// The raw values under a fixed-point matrix, row by row.
pub open spec fn mat_raws(m: Seq<Vec<Fix>>) -> Seq<Seq<int>> {
    m.map_values(|row: Vec<Fix>| raws(row@))
}

/// Indexing the matrix raw view reads the row's raw view.
pub broadcast proof fn lemma_mat_raws_index(m: Seq<Vec<Fix>>, i: int)
    requires
        0 <= i < m.len(),
    ensures
        #[trigger] mat_raws(m)[i] == raws(m[i]@),
{
}


/// An `n` by `n` matrix of well-formed raw values.
pub open spec fn mat_wf(m: Seq<Seq<int>>, n: int) -> bool {
    &&& m.len() == n
    &&& forall|i: int| 0 <= i < n ==> (#[trigger] m[i]).len() == n
    &&& forall|i: int| 0 <= i < n ==> all_wf(#[trigger] m[i])
}

/// Fixed-point dot product of the first `m` components, folded left to
/// right.
pub open spec fn dotq(u: Seq<int>, v: Seq<int>, m: nat) -> int
    decreases m,
{
    if m == 0 {
        0
    } else {
        q_add(dotq(u, v, (m - 1) as nat), q_mul(u[m - 1], v[m - 1]))
    }
}

/// Matrix-vector product over raw values.
pub open spec fn matvec(a: Seq<Seq<int>>, x: Seq<int>, n: nat) -> Seq<int> {
    Seq::new(n, |i: int| dotq(a[i], x, n))
}

/// The Rayleigh-quotient estimate `(y . x) / (x . x)`, or zero on a zero
/// iterate.
pub open spec fn rayleigh(y: Seq<int>, x: Seq<int>, n: nat) -> int {
    if dotq(x, x, n) > 0 {
        q_div(dotq(y, x, n), dotq(x, x, n))
    } else {
        0
    }
}

/// The renormalized iterate `y / |y|`, or `x` unchanged when `y` has zero
/// norm.
pub open spec fn renorm(y: Seq<int>, x: Seq<int>, n: nat) -> Seq<int> {
    let norm = q_sqrt(dotq(y, y, n));
    if norm > 0 {
        Seq::new(n, |i: int| q_div(y[i], norm))
    } else {
        x
    }
}

/// The power iteration from iterate `x` and previous estimate `lam_old`,
/// with `iters` iterations left: stop once two successive estimates differ
/// by less than `tol`, else return the last estimate.
pub open spec fn pi_iter(a: Seq<Seq<int>>, x: Seq<int>, lam_old: int, iters: nat, tol: int) -> int
    decreases iters,
{
    if iters == 0 {
        lam_old
    } else {
        let n = a.len();
        let y = matvec(a, x, n);
        let lam = rayleigh(y, x, n);
        if q_abs(q_sub(lam, lam_old)) < tol {
            lam
        } else {
            pi_iter(a, renorm(y, x, n), lam, (iters - 1) as nat, tol)
        }
    }
}

/// The uniform starting iterate `1/n` in every component.
pub open spec fn pi_start(n: nat) -> Seq<int> {
    Seq::new(n, |i: int| q_div(FIX_SCALE as int, q_clamp_scale(n)))
}

/// The raw value of the whole number `n`, clamped.
pub open spec fn q_clamp_scale(n: nat) -> int {
    crate::fixed::q_clamp(n * FIX_SCALE, crate::fixed::FIX_MAX_RAW as int)
}

/// The power-iteration estimate of the dominant eigenvalue of `a`.
pub open spec fn pi_spec(a: Seq<Seq<int>>, max_iter: nat, tol: int) -> int {
    pi_iter(a, pi_start(a.len()), 0, max_iter, tol)
}

/// Estimate the spectral radius (dominant eigenvalue) of the non-negative
/// square matrix `a` by power iteration: repeat `y = A x`, estimate the
/// eigenvalue by the Rayleigh quotient, renormalize, and stop when two
/// successive estimates agree within `tol` or the budget `max_iter` runs
/// out. The matrix must be square and non-empty.
pub fn spectral_radius_power_iteration(a: &Vec<Vec<Fix>>, max_iter: usize, tol: Fix) -> (r: Fix)
    requires
        a.len() > 0,
        mat_wf(mat_raws(a@), a.len() as int),
        tol.wf(),
    ensures
        r.raw == pi_spec(mat_raws(a@), max_iter as nat, tol.raw as int),
        r.wf(),
{
    let n = a.len();
    let ghost am = mat_raws(a@);
    let inv_n = Fix { raw: FIX_SCALE }.qdiv(Fix::from_usize(n));
    let mut x: Vec<Fix> = Vec::new();
    while x.len() < n
        invariant
            x.len() <= n,
            forall|i: int| 0 <= i < x.len() ==> (#[trigger] x@[i]) == inv_n,
        decreases n - x.len(),
    {
        x.push(inv_n);
    }
    assert(raws(x@) =~= pi_start(n as nat));

    let mut lam_old = Fix { raw: 0 };
    let mut iter: usize = 0;
    while iter < max_iter
        invariant
            iter <= max_iter,
            n == a.len(),
            n > 0,
            am == mat_raws(a@),
            mat_wf(am, n as int),
            tol.wf(),
            lam_old.wf(),
            x.len() == n,
            all_wf(raws(x@)),
            pi_iter(am, raws(x@), lam_old.raw as int, (max_iter - iter) as nat, tol.raw as int)
                == pi_spec(am, max_iter as nat, tol.raw as int),
        ensures
            lam_old.raw == pi_spec(am, max_iter as nat, tol.raw as int),
            lam_old.wf(),
        decreases max_iter - iter,
    {
        let ghost xv = raws(x@);
        // y = A x
        let mut y: Vec<Fix> = Vec::new();
        let mut i: usize = 0;
        while i < n
            invariant
                i <= n,
                n == a.len(),
                am == mat_raws(a@),
                mat_wf(am, n as int),
                x.len() == n,
                xv == raws(x@),
                all_wf(xv),
                y.len() == i,
                forall|k: int|
                    0 <= k < i ==> (#[trigger] y@[k]).raw == dotq(am[k], xv, n as nat) && y@[k].wf(),
            decreases n - i,
        {
            let row = &a[i];
            proof {
                assert(am[i as int] == raws(row@));
            }
            let mut sum = Fix { raw: 0 };
            let mut j: usize = 0;
            while j < n
                invariant
                    j <= n,
                    i < n,
                    n == a.len(),
                    am == mat_raws(a@),
                    mat_wf(am, n as int),
                    am[i as int] == raws(row@),
                    row.len() == n,
                    x.len() == n,
                    xv == raws(x@),
                    all_wf(xv),
                    sum.wf(),
                    sum.raw == dotq(am[i as int], xv, j as nat),
                decreases n - j,
            {
                proof {
                    assert(raws(row@)[j as int] == row@[j as int].raw as int);
                    assert(xv[j as int] == x@[j as int].raw as int);
                }
                sum = sum.qadd(row[j].qmul(x[j]));
                j += 1;
            }
            y.push(sum);
            i += 1;
        }
        assert(raws(y@) =~= matvec(am, xv, n as nat));
        let ghost yv = raws(y@);

        // Rayleigh quotient estimate
        let mut num = Fix { raw: 0 };
        let mut den = Fix { raw: 0 };
        let mut i2: usize = 0;
        while i2 < n
            invariant
                i2 <= n,
                n == y.len(),
                x.len() == n,
                xv == raws(x@),
                yv == raws(y@),
                all_wf(xv),
                all_wf(yv),
                num.wf(),
                den.wf(),
                num.raw == dotq(yv, xv, i2 as nat),
                den.raw == dotq(xv, xv, i2 as nat),
            decreases n - i2,
        {
            proof {
                assert(yv[i2 as int] == y@[i2 as int].raw as int);
                assert(xv[i2 as int] == x@[i2 as int].raw as int);
            }
            num = num.qadd(y[i2].qmul(x[i2]));
            den = den.qadd(x[i2].qmul(x[i2]));
            i2 += 1;
        }
        let lam = if den.raw > 0 {
            num.qdiv(den)
        } else {
            Fix { raw: 0 }
        };
        assert(lam.raw == rayleigh(yv, xv, n as nat));

        // Renormalize y into x
        let mut sumsq = Fix { raw: 0 };
        let mut i3: usize = 0;
        while i3 < n
            invariant
                i3 <= n,
                n == y.len(),
                yv == raws(y@),
                all_wf(yv),
                sumsq.wf(),
                sumsq.raw == dotq(yv, yv, i3 as nat),
            decreases n - i3,
        {
            proof {
                assert(yv[i3 as int] == y@[i3 as int].raw as int);
            }
            sumsq = sumsq.qadd(y[i3].qmul(y[i3]));
            i3 += 1;
        }
        let norm = sumsq.qsqrt();
        assert forall|k: int| 0 <= k < n implies (#[trigger] x@[k]).wf() by {
            assert(raws(x@)[k] == x@[k].raw as int);
        }
        if norm.raw > 0 {
            let mut i4: usize = 0;
            while i4 < n
                invariant
                    i4 <= n,
                    n == y.len(),
                    x.len() == n,
                    yv == raws(y@),
                    all_wf(yv),
                    norm.wf(),
                    norm.raw > 0,
                    forall|k: int|
                        0 <= k < i4 ==> (#[trigger] x@[k]).raw == q_div(yv[k], norm.raw as int)
                            && x@[k].wf(),
                    forall|k: int| i4 <= k < n ==> (#[trigger] x@[k]).wf(),
                decreases n - i4,
            {
                proof {
                    assert(yv[i4 as int] == y@[i4 as int].raw as int);
                }
                x.set(i4, y[i4].qdiv(norm));
                i4 += 1;
            }
            assert(raws(x@) =~= renorm(yv, xv, n as nat));
        } else {
            assert(raws(x@) =~= renorm(yv, xv, n as nat));
        }

        // Convergence test on successive estimates
        if lam.qsub(lam_old).qabs().raw < tol.raw {
            assert(pi_iter(am, xv, lam_old.raw as int, (max_iter - iter) as nat, tol.raw as int)
                == lam.raw);
            return lam;
        }
        lam_old = lam;
        iter += 1;
    }
    lam_old
}

} // verus!
