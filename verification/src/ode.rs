//! Fixed-step classical Runge-Kutta integration of an ODE system over
//! fixed-point state vectors.
//!
//! The stepper is generic over the right-hand side through [`OdeRhs`], whose
//! executable evaluation must match its spec-level description exactly; the
//! step's own contract then pins the new state to [`rk4_step_spec`], the
//! four-stage formula `y <- y + dt/6 (k1 + 2 k2 + 2 k3 + k4)`. An
//! allocating form and a workspace-reusing form are provided; both meet the
//! same contract, so they produce identical trajectories.

use vstd::prelude::*;

use crate::fixed::{all_wf, q_add, q_div, q_mul, raws, Fix, FIX_SCALE};

verus! {

/// A right-hand side `f(t, y) -> dy` of an ODE system. The spec function
/// `rhs_spec` is the single description of the derivative; the executable
/// `eval_rhs` must produce exactly it. Evaluation may use intermediate
/// buffers, carried explicitly as a `Scratch` value so the hot path can
/// reuse them instead of allocating.
pub trait OdeRhs: Sized {
    /// Reusable working memory for one evaluation; never observed by
    /// callers.
    type Scratch;

    /// The derivative at time `t` and state `y`, over raw values.
    spec fn rhs_spec(&self, t: int, y: Seq<int>) -> Seq<int>;

    /// The states on which the right-hand side may be evaluated.
    spec fn rhs_req(&self, y: Seq<int>) -> bool;

    /// The scratch values `eval_rhs` accepts.
    spec fn scratch_ok(&self, sc: Self::Scratch) -> bool;

    /// Admissibility depends only on the state's dimension and
    /// well-formedness, so integrator-built trial states stay admissible.
    proof fn rhs_req_stable(&self, y1: Seq<int>, y2: Seq<int>)
        requires
            self.rhs_req(y1),
            y2.len() == y1.len(),
            all_wf(y2),
        ensures
            self.rhs_req(y2),
    ;

    /// The derivative keeps the dimension and stays within bounds.
    proof fn rhs_len(&self, t: int, y: Seq<int>)
        requires
            self.rhs_req(y),
        ensures
            self.rhs_spec(t, y).len() == y.len(),
            all_wf(self.rhs_spec(t, y)),
    ;

    /// Fresh working memory for evaluations of this right-hand side.
    fn new_scratch(&self) -> (sc: Self::Scratch)
        ensures
            self.scratch_ok(sc),
    ;

    /// Evaluate the derivative at `(t, y)` into `dy`.
    fn eval_rhs(&self, t: Fix, y: &Vec<Fix>, dy: &mut Vec<Fix>, sc: &mut Self::Scratch)
        requires
            self.rhs_req(raws(y@)),
            t.wf(),
            old(dy).len() == y.len(),
            self.scratch_ok(*old(sc)),
        ensures
            raws(final(dy)@) == self.rhs_spec(t.raw as int, raws(y@)),
            final(dy).len() == y.len(),
            self.scratch_ok(*final(sc)),
    ;
}

/// `y + c * k`, elementwise, over raw values.
pub open spec fn axpy_spec(y: Seq<int>, c: int, k: Seq<int>) -> Seq<int> {
    Seq::new(y.len(), |i: int| q_add(y[i], q_mul(c, k[i])))
}

/// The weighted stage combination `k1 + 2 k2 + 2 k3 + k4` of one component.
pub open spec fn rk4_comb_spec(a: int, b: int, c: int, d: int) -> int {
    q_add(q_add(q_add(a, q_mul(2 * FIX_SCALE, b)), q_mul(2 * FIX_SCALE, c)), d)
}

/// One classical fourth-order Runge-Kutta step of size `dt` at time `t`,
/// over raw values: trial states at `t`, `t + dt/2` (twice) and `t + dt`,
/// then `y + dt/6 (k1 + 2 k2 + 2 k3 + k4)`.
pub open spec fn rk4_step_spec<R: OdeRhs>(r: &R, y: Seq<int>, t: int, dt: int) -> Seq<int> {
    let hd = q_mul(FIX_SCALE as int / 2, dt);
    let th = q_add(t, hd);
    let k1 = r.rhs_spec(t, y);
    let k2 = r.rhs_spec(th, axpy_spec(y, hd, k1));
    let k3 = r.rhs_spec(th, axpy_spec(y, hd, k2));
    let k4 = r.rhs_spec(q_add(t, dt), axpy_spec(y, dt, k3));
    let dt6 = q_div(dt, 6 * FIX_SCALE as int);
    Seq::new(y.len(), |i: int| q_add(y[i], q_mul(dt6, rk4_comb_spec(k1[i], k2[i], k3[i], k4[i]))))
}

/// A vector of `n` zeros.
pub fn fix_zero_vec(n: usize) -> (v: Vec<Fix>)
    ensures
        v.len() == n,
        forall|i: int| 0 <= i < n ==> (#[trigger] v@[i]).raw == 0,
{
    let mut v: Vec<Fix> = Vec::new();
    while v.len() < n
        invariant
            v.len() <= n,
            forall|i: int| 0 <= i < v.len() ==> (#[trigger] v@[i]).raw == 0,
        decreases n - v.len(),
    {
        v.push(Fix { raw: 0 });
    }
    v
}

/// Writes `y + c * k` into `out`.
fn axpy_into(y: &Vec<Fix>, c: Fix, k: &Vec<Fix>, out: &mut Vec<Fix>)
    requires
        c.wf(),
        all_wf(raws(y@)),
        all_wf(raws(k@)),
        k.len() == y.len(),
        old(out).len() == y.len(),
    ensures
        raws(final(out)@) == axpy_spec(raws(y@), c.raw as int, raws(k@)),
        final(out).len() == y.len(),
        all_wf(raws(final(out)@)),
{
    let n = y.len();
    let mut i: usize = 0;
    while i < n
        invariant
            i <= n,
            n == y.len(),
            k.len() == n,
            out.len() == n,
            c.wf(),
            all_wf(raws(y@)),
            all_wf(raws(k@)),
            forall|j: int|
                0 <= j < i ==> raws(out@)[j] == q_add(raws(y@)[j], q_mul(c.raw as int, raws(k@)[j]))
                    && (#[trigger] out@[j]).wf(),
        decreases n - i,
    {
        proof {
            assert(raws(y@)[i as int] == y@[i as int].raw as int);
            assert(raws(k@)[i as int] == k@[i as int].raw as int);
        }
        let val = y[i].qadd(c.qmul(k[i]));
        out.set(i, val);
        i += 1;
    }
    assert(raws(out@) =~= axpy_spec(raws(y@), c.raw as int, raws(k@)));
}

/// Advance `y` in place by one RK4 step of size `dt` at time `t`,
/// allocating fresh stage buffers.
pub fn rk4_step<R: OdeRhs>(r: &R, y: &mut Vec<Fix>, t: Fix, dt: Fix)
    requires
        r.rhs_req(raws(old(y)@)),
        all_wf(raws(old(y)@)),
        t.wf(),
        dt.wf(),
    ensures
        raws(final(y)@) == rk4_step_spec(r, raws(old(y)@), t.raw as int, dt.raw as int),
        final(y).len() == old(y).len(),
        all_wf(raws(final(y)@)),
{
    let n = y.len();
    let mut k1 = fix_zero_vec(n);
    let mut k2 = fix_zero_vec(n);
    let mut k3 = fix_zero_vec(n);
    let mut k4 = fix_zero_vec(n);
    let mut ytmp = fix_zero_vec(n);
    let mut sc = r.new_scratch();
    rk4_stages(r, y, t, dt, &mut k1, &mut k2, &mut k3, &mut k4, &mut ytmp, &mut sc);
}

/// Scratch buffers for allocation-free RK4 stepping: the four stage slopes
/// and one trial state.
pub struct Rk4Workspace {
    pub k1: Vec<Fix>,
    pub k2: Vec<Fix>,
    pub k3: Vec<Fix>,
    pub k4: Vec<Fix>,
    pub ytmp: Vec<Fix>,
}

impl Rk4Workspace {
    /// A workspace sized for state vectors of length `n`.
    pub fn new(n: usize) -> (w: Rk4Workspace)
        ensures
            w.sized_for(n as int),
    {
        Rk4Workspace {
            k1: fix_zero_vec(n),
            k2: fix_zero_vec(n),
            k3: fix_zero_vec(n),
            k4: fix_zero_vec(n),
            ytmp: fix_zero_vec(n),
        }
    }

    /// All five buffers have length `n`.
    pub open spec fn sized_for(self, n: int) -> bool {
        self.k1.len() == n && self.k2.len() == n && self.k3.len() == n && self.k4.len() == n
            && self.ytmp.len() == n
    }

    /// Make every buffer length `n`; a no-op when already sized.
    pub fn resize(&mut self, n: usize)
        ensures
            final(self).sized_for(n as int),
    {
        if self.k1.len() != n {
            self.k1 = fix_zero_vec(n);
        }
        if self.k2.len() != n {
            self.k2 = fix_zero_vec(n);
        }
        if self.k3.len() != n {
            self.k3 = fix_zero_vec(n);
        }
        if self.k4.len() != n {
            self.k4 = fix_zero_vec(n);
        }
        if self.ytmp.len() != n {
            self.ytmp = fix_zero_vec(n);
        }
    }
}

/// Advance `y` in place by one RK4 step of size `dt` at time `t`, reusing
/// the caller's workspace instead of allocating. Produces exactly the state
/// `rk4_step` produces.
pub fn rk4_step_ws<R: OdeRhs>(
    r: &R,
    y: &mut Vec<Fix>,
    t: Fix,
    dt: Fix,
    ws: &mut Rk4Workspace,
    sc: &mut R::Scratch,
)
    requires
        r.rhs_req(raws(old(y)@)),
        all_wf(raws(old(y)@)),
        t.wf(),
        dt.wf(),
        r.scratch_ok(*old(sc)),
    ensures
        raws(final(y)@) == rk4_step_spec(r, raws(old(y)@), t.raw as int, dt.raw as int),
        final(y).len() == old(y).len(),
        all_wf(raws(final(y)@)),
        final(ws).sized_for(old(y).len() as int),
        r.scratch_ok(*final(sc)),
{
    let n = y.len();
    ws.resize(n);
    let Rk4Workspace { k1, k2, k3, k4, ytmp } = ws;
    rk4_stages(r, y, t, dt, k1, k2, k3, k4, ytmp, sc);
}

/// The four RK4 stages and the final combination, over caller-supplied
/// buffers.
fn rk4_stages<R: OdeRhs>(
    r: &R,
    y: &mut Vec<Fix>,
    t: Fix,
    dt: Fix,
    k1: &mut Vec<Fix>,
    k2: &mut Vec<Fix>,
    k3: &mut Vec<Fix>,
    k4: &mut Vec<Fix>,
    ytmp: &mut Vec<Fix>,
    sc: &mut R::Scratch,
)
    requires
        r.rhs_req(raws(old(y)@)),
        all_wf(raws(old(y)@)),
        t.wf(),
        dt.wf(),
        r.scratch_ok(*old(sc)),
        old(k1).len() == old(y).len(),
        old(k2).len() == old(y).len(),
        old(k3).len() == old(y).len(),
        old(k4).len() == old(y).len(),
        old(ytmp).len() == old(y).len(),
    ensures
        raws(final(y)@) == rk4_step_spec(r, raws(old(y)@), t.raw as int, dt.raw as int),
        final(y).len() == old(y).len(),
        all_wf(raws(final(y)@)),
        r.scratch_ok(*final(sc)),
        final(k1).len() == old(y).len(),
        final(k2).len() == old(y).len(),
        final(k3).len() == old(y).len(),
        final(k4).len() == old(y).len(),
        final(ytmp).len() == old(y).len(),
{
    let ghost y0 = raws(y@);
    let n = y.len();
    let half = Fix { raw: FIX_SCALE / 2 };
    let hd = half.qmul(dt);
    let th = t.qadd(hd);
    let te = t.qadd(dt);
    let dt6 = dt.qdiv(Fix::from_int(6));
    let two = Fix::from_int(2);

    r.eval_rhs(t, y, k1, sc);
    proof {
        r.rhs_len(t.raw as int, y0);
    }
    axpy_into(y, hd, k1, ytmp);
    proof {
        r.rhs_req_stable(y0, raws(ytmp@));
    }
    r.eval_rhs(th, ytmp, k2, sc);
    proof {
        r.rhs_len(th.raw as int, raws(ytmp@));
    }
    axpy_into(y, hd, k2, ytmp);
    proof {
        r.rhs_req_stable(y0, raws(ytmp@));
    }
    r.eval_rhs(th, ytmp, k3, sc);
    proof {
        r.rhs_len(th.raw as int, raws(ytmp@));
    }
    axpy_into(y, dt, k3, ytmp);
    proof {
        r.rhs_req_stable(y0, raws(ytmp@));
    }
    r.eval_rhs(te, ytmp, k4, sc);
    proof {
        r.rhs_len(te.raw as int, raws(ytmp@));
    }

    let ghost kk1 = raws(k1@);
    let ghost kk2 = raws(k2@);
    let ghost kk3 = raws(k3@);
    let ghost kk4 = raws(k4@);
    let mut i: usize = 0;
    while i < n
        invariant
            i <= n,
            n == y.len(),
            k1.len() == n,
            k2.len() == n,
            k3.len() == n,
            k4.len() == n,
            dt6.wf(),
            two.wf(),
            two.raw == 2 * FIX_SCALE,
            kk1 == raws(k1@),
            kk2 == raws(k2@),
            kk3 == raws(k3@),
            kk4 == raws(k4@),
            all_wf(kk1),
            all_wf(kk2),
            all_wf(kk3),
            all_wf(kk4),
            all_wf(y0),
            y0.len() == n,
            forall|j: int| i <= j < n ==> raws(y@)[j] == y0[j],
            forall|j: int|
                0 <= j < i ==> raws(y@)[j] == q_add(y0[j], q_mul(dt6.raw as int, rk4_comb_spec(
                    kk1[j],
                    kk2[j],
                    kk3[j],
                    kk4[j],
                ))) && (#[trigger] y@[j]).wf(),
        decreases n - i,
    {
        proof {
            assert(raws(y@)[i as int] == y@[i as int].raw as int);
            assert(raws(y@)[i as int] == y0[i as int]);
            assert(kk1[i as int] == k1@[i as int].raw as int);
            assert(kk2[i as int] == k2@[i as int].raw as int);
            assert(kk3[i as int] == k3@[i as int].raw as int);
            assert(kk4[i as int] == k4@[i as int].raw as int);
        }
        let comb = k1[i].qadd(two.qmul(k2[i])).qadd(two.qmul(k3[i])).qadd(k4[i]);
        let val = y[i].qadd(dt6.qmul(comb));
        y.set(i, val);
        i += 1;
    }
    assert(raws(y@) =~= rk4_step_spec(r, y0, t.raw as int, dt.raw as int));
}

} // verus!
