//! The age-structured SEIRS compartment model with Erlang-staged exposed and
//! infectious periods.
//!
//! A state vector holds, per age group, one Susceptible slot, `k_e` Exposed
//! stages, `k_i` Infectious stages and one Recovered slot, in that order.
//! The derivative implements force-of-infection mixing over the contact
//! matrix, stage progression at per-stage rates `k_e * sigma` and
//! `k_i * gamma`, waning, vaccination, and the optional mortality, aging and
//! birth flows; its executable forms are pinned exactly to the spec function
//! [`SeirsConfig::deriv_spec`].

use vstd::prelude::*;

use crate::fixed::{
    all_wf, q_add, q_clamp, q_div, q_max, q_min, q_mul, q_sub, raws, Fix, FIX_MAX_RAW,
    FIX_MUL_MAX_RAW, FIX_SCALE,
};

verus! {

broadcast use crate::fixed::lemma_raws_index, crate::fixed::lemma_all_wf_index;

/// The invariant of a configuration that validation rejects, named.
#[derive(Clone, Copy, PartialEq, Eq, Structural, Debug)]
pub enum ConfigError {
    /// The contact matrix has a number of rows other than `n_age`.
    ContactRows,
    /// Some contact-matrix row has a length other than `n_age`.
    ContactNotSquare,
    /// The population vector has a length other than `n_age`.
    PopLen,
    /// The vaccination-rate vector is present with a length other than
    /// `n_age`.
    VaccLen,
    /// The aging-rate vector is present with a length other than `n_age`.
    AgingLen,
    /// The fertility vector is present with a length other than `n_age`.
    FertLen,
    /// A stage count is zero.
    StageCounts,
    /// A mortality rate is negative.
    NegativeMortality,
}

/// The immutable parameter bundle of a simulation: age structure, stage
/// counts, rates, transmission schedule, contact matrix, population, and the
/// optional vaccination and demographic flows (absent means zero).
#[derive(Clone, Debug)]
pub struct SeirsConfig {
    /// Number of age groups.
    pub n_age: usize,
    /// Number of Exposed sub-stages.
    pub k_e: usize,
    /// Number of Infectious sub-stages.
    pub k_i: usize,
    /// Mean exposed-period exit rate: the mean incubation time is `1/sigma`
    /// whatever `k_e` is.
    pub sigma: Fix,
    /// Mean infectious-period exit rate: the mean infectious time is
    /// `1/gamma` whatever `k_i` is.
    pub gamma: Fix,
    /// Waning rate, Recovered back to Susceptible; zero disables waning.
    pub omega: Fix,
    /// Baseline per-day mortality applied to every compartment; zero
    /// disables.
    pub mu: Fix,
    /// Additional per-day mortality applied to infectious stages only.
    pub mu_i_extra: Fix,
    /// Baseline transmission scalar.
    pub beta0: Fix,
    /// Step schedule of transmission multipliers, sorted ascending by time:
    /// the multiplier of the last entry at or before `t` is active.
    pub beta_schedule: Vec<(Fix, Fix)>,
    /// Contact matrix: `contact[a][b]` is the average daily contacts a
    /// member of group `a` has with group `b`.
    pub contact: Vec<Vec<Fix>>,
    /// Population per age group at simulation start.
    pub pop: Vec<Fix>,
    /// Per-age daily vaccination rate moving Susceptible straight to
    /// Recovered; absent means zero.
    pub vacc_rate: Option<Vec<Fix>>,
    /// Per-age daily aging-out rate into the next older bin; absent means
    /// zero.
    pub aging_rate_per_day: Option<Vec<Fix>>,
    /// Per-age daily birth rate contributed by each bin; absent means zero.
    pub fertility_per_day: Option<Vec<Fix>>,
    /// Fraction of each bin counted as potential mothers in the birth flow.
    pub female_fraction: Fix,
}

impl SeirsConfig {
    /// Slots per age group: Susceptible, the Exposed and Infectious stages,
    /// Recovered.
    pub open spec fn block_spec(self) -> int {
        2 + self.k_e + self.k_i
    }

    /// Length of the state vector.
    pub open spec fn state_size_spec(self) -> int {
        self.n_age * self.block_spec()
    }

    /// Index of the Susceptible slot of age group `a`.
    pub open spec fn s_pos(self, a: int) -> int {
        a * self.block_spec()
    }

    /// Index of Exposed stage `j` of age group `a`.
    pub open spec fn e_pos(self, a: int, j: int) -> int {
        a * self.block_spec() + 1 + j
    }

    /// Index of Infectious stage `j` of age group `a`.
    pub open spec fn i_pos(self, a: int, j: int) -> int {
        a * self.block_spec() + 1 + self.k_e + j
    }

    /// Index of the Recovered slot of age group `a`.
    pub open spec fn r_pos(self, a: int) -> int {
        a * self.block_spec() + 1 + self.k_e + self.k_i
    }

    /// The shape invariants that validation enforces.
    pub open spec fn shape_ok(self) -> bool {
        &&& self.contact@.len() == self.n_age
        &&& forall|i: int|
            0 <= i < self.n_age ==> (#[trigger] self.contact@[i])@.len() == self.n_age
        &&& self.pop@.len() == self.n_age
        &&& (self.vacc_rate matches Some(v) ==> v@.len() == self.n_age)
        &&& (self.aging_rate_per_day matches Some(v) ==> v@.len() == self.n_age)
        &&& (self.fertility_per_day matches Some(v) ==> v@.len() == self.n_age)
        &&& self.k_e >= 1
        &&& self.k_i >= 1
        &&& self.mu.raw >= 0
        &&& self.mu_i_extra.raw >= 0
    }

    /// Every fixed-point value the configuration carries is well formed.
    pub open spec fn fx_ok(self) -> bool {
        &&& self.sigma.wf()
        &&& self.gamma.wf()
        &&& self.omega.wf()
        &&& self.mu.wf()
        &&& self.mu_i_extra.wf()
        &&& self.beta0.wf()
        &&& self.female_fraction.wf()
        &&& forall|i: int|
            0 <= i < self.beta_schedule@.len() ==> (#[trigger] self.beta_schedule@[i]).0.wf()
                && self.beta_schedule@[i].1.wf()
        &&& forall|i: int| 0 <= i < self.contact@.len() ==> all_wf(raws((#[trigger] self.contact@[i])@))
        &&& all_wf(raws(self.pop@))
        &&& (self.vacc_rate matches Some(v) ==> all_wf(raws(v@)))
        &&& (self.aging_rate_per_day matches Some(v) ==> all_wf(raws(v@)))
        &&& (self.fertility_per_day matches Some(v) ==> all_wf(raws(v@)))
    }

    /// The outcome of validation: the first violated invariant, checked in a
    /// fixed order, or success.
    pub open spec fn check_spec(self) -> Result<(), ConfigError> {
        if self.contact@.len() != self.n_age {
            Err(ConfigError::ContactRows)
        } else if exists|i: int|
            0 <= i < self.n_age && (#[trigger] self.contact@[i])@.len() != self.n_age {
            Err(ConfigError::ContactNotSquare)
        } else if self.pop@.len() != self.n_age {
            Err(ConfigError::PopLen)
        } else if (match self.vacc_rate {
            Some(v) => v@.len() != self.n_age,
            None => false,
        }) {
            Err(ConfigError::VaccLen)
        } else if (match self.aging_rate_per_day {
            Some(v) => v@.len() != self.n_age,
            None => false,
        }) {
            Err(ConfigError::AgingLen)
        } else if (match self.fertility_per_day {
            Some(v) => v@.len() != self.n_age,
            None => false,
        }) {
            Err(ConfigError::FertLen)
        } else if self.k_e < 1 || self.k_i < 1 {
            Err(ConfigError::StageCounts)
        } else if self.mu.raw < 0 || self.mu_i_extra.raw < 0 {
            Err(ConfigError::NegativeMortality)
        } else {
            Ok(())
        }
    }

    /// Validate the configuration, reporting the first violated invariant.
    /// Succeeds exactly on configurations whose shape invariants all hold.
    pub fn check(&self) -> (r: Result<(), ConfigError>)
        ensures
            r == self.check_spec(),
            r is Ok <==> self.shape_ok(),
    {
        if self.contact.len() != self.n_age {
            return Err(ConfigError::ContactRows);
        }
        let mut i: usize = 0;
        while i < self.n_age
            invariant
                i <= self.n_age,
                self.contact@.len() == self.n_age,
                forall|j: int| 0 <= j < i ==> (#[trigger] self.contact@[j])@.len() == self.n_age,
            decreases self.n_age - i,
        {
            if self.contact[i].len() != self.n_age {
                return Err(ConfigError::ContactNotSquare);
            }
            i += 1;
        }
        if self.pop.len() != self.n_age {
            return Err(ConfigError::PopLen);
        }
        if let Some(v) = &self.vacc_rate {
            if v.len() != self.n_age {
                return Err(ConfigError::VaccLen);
            }
        }
        if let Some(v) = &self.aging_rate_per_day {
            if v.len() != self.n_age {
                return Err(ConfigError::AgingLen);
            }
        }
        if let Some(v) = &self.fertility_per_day {
            if v.len() != self.n_age {
                return Err(ConfigError::FertLen);
            }
        }
        if self.k_e < 1 || self.k_i < 1 {
            return Err(ConfigError::StageCounts);
        }
        if self.mu.raw < 0 || self.mu_i_extra.raw < 0 {
            return Err(ConfigError::NegativeMortality);
        }
        Ok(())
    }

    /// Length of the state vector:
    /// `n_age * (1 + k_e + k_i + 1)`.
    pub fn state_size(&self) -> (n: usize)
        requires
            self.block_spec() <= usize::MAX,
            self.state_size_spec() <= usize::MAX,
        ensures
            n == self.state_size_spec(),
    {
        self.n_age * (1 + self.k_e + self.k_i + 1)
    }
}

/// Position arithmetic of one age block: the block lies within the state
/// vector.
pub proof fn lemma_layout(cfg: SeirsConfig, a: int)
    requires
        0 <= a < cfg.n_age,
    ensures
        0 <= a * cfg.block_spec(),
        a * cfg.block_spec() + cfg.block_spec() == (a + 1) * cfg.block_spec(),
        (a + 1) * cfg.block_spec() <= cfg.state_size_spec(),
{
    let b = cfg.block_spec();
    assert(0 <= a * b && a * b + b == (a + 1) * b && (a + 1) * b <= cfg.n_age * b)
        by (nonlinear_arith)
        requires
            0 <= a < cfg.n_age,
            b >= 0,
    ;
}

/// An index written as `a * block + off` decodes back to `(a, off)`.
pub proof fn lemma_pos_decode(cfg: SeirsConfig, a: int, off: int)
    requires
        0 <= a,
        0 <= off < cfg.block_spec(),
    ensures
        (a * cfg.block_spec() + off) / cfg.block_spec() == a,
        (a * cfg.block_spec() + off) % cfg.block_spec() == off,
{
    vstd::arithmetic::div_mod::lemma_fundamental_div_mod_converse(
        a * cfg.block_spec() + off,
        cfg.block_spec(),
        a,
        off,
    );
}

/// The per-age compartment indices `(S, first E, first I, R)` of age group
/// `a`.
fn indices(cfg: &SeirsConfig, a: usize) -> (r: (usize, usize, usize, usize))
    requires
        a < cfg.n_age,
        cfg.state_size_spec() <= usize::MAX,
    ensures
        r.0 == cfg.s_pos(a as int),
        r.1 == cfg.e_pos(a as int, 0),
        r.2 == cfg.i_pos(a as int, 0),
        r.3 == cfg.r_pos(a as int),
        r.0 < r.1 <= r.2 <= r.3 < cfg.state_size_spec(),
{
    proof {
        lemma_layout(*cfg, a as int);
    }
    let block = 1 + cfg.k_e + cfg.k_i + 1;
    let base = a * block;
    let idx_s = base;
    let e0 = idx_s + 1;
    let i0 = e0 + cfg.k_e;
    let r = i0 + cfg.k_i;
    (idx_s, e0, i0, r)
}

/// Fixed-point fold of the `len` state slots starting at `lo`, left to
/// right.
pub open spec fn sum_fx(y: Seq<int>, lo: int, len: nat) -> int
    decreases len,
{
    if len == 0 {
        0
    } else {
        q_add(sum_fx(y, lo, (len - 1) as nat), y[lo + len - 1])
    }
}

/// Walk the transmission schedule from the front: apply the multiplier of
/// every entry whose time is at or before `t`, stopping at the first later
/// entry; the last applied multiplier wins.
pub open spec fn beta_walk(b0: int, cur: int, sched: Seq<(Fix, Fix)>, t: int) -> int
    decreases sched.len(),
{
    if sched.len() == 0 {
        cur
    } else if t >= sched[0].0.raw {
        beta_walk(b0, q_mul(b0, sched[0].1.raw as int), sched.drop_first(), t)
    } else {
        cur
    }
}

impl SeirsConfig {
    /// One contact-matrix entry, as a raw value.
    pub open spec fn contact_raw(self, a: int, b: int) -> int {
        self.contact@[a]@[b].raw as int
    }

    /// One population entry, as a raw value.
    pub open spec fn pop_raw(self, a: int) -> int {
        self.pop@[a].raw as int
    }

    /// The vaccination rate of group `a`; zero when absent.
    pub open spec fn vacc_raw(self, a: int) -> int {
        match self.vacc_rate {
            Some(v) => v@[a].raw as int,
            None => 0,
        }
    }

    /// The aging rate of group `a`; zero when absent.
    pub open spec fn aging_raw(self, a: int) -> int {
        match self.aging_rate_per_day {
            Some(v) => v@[a].raw as int,
            None => 0,
        }
    }

    /// The fertility rate of group `a`; zero when absent.
    pub open spec fn fert_raw(self, a: int) -> int {
        match self.fertility_per_day {
            Some(v) => v@[a].raw as int,
            None => 0,
        }
    }

    /// The aging outflow rate of group `a`: its aging rate, except that the
    /// oldest bin has no older bin to age into and keeps its members.
    pub open spec fn age_out_raw(self, a: int) -> int {
        if a + 1 < self.n_age {
            self.aging_raw(a)
        } else {
            0
        }
    }

    /// Sum of the Exposed stages of group `a`.
    pub open spec fn esum(self, y: Seq<int>, a: int) -> int {
        sum_fx(y, self.e_pos(a, 0), self.k_e as nat)
    }

    /// Sum of the Infectious stages of group `a`.
    pub open spec fn isum(self, y: Seq<int>, a: int) -> int {
        sum_fx(y, self.i_pos(a, 0), self.k_i as nat)
    }

    /// Current population of group `a`: all of its compartments summed at
    /// the present instant, not read from the static population vector.
    pub open spec fn nsum(self, y: Seq<int>, a: int) -> int {
        q_add(q_add(q_add(y[self.s_pos(a)], self.esum(y, a)), self.isum(y, a)), y[self.r_pos(a)])
    }

    /// The effective transmission rate at time `t`: the baseline scaled by
    /// the schedule's active multiplier, or the baseline itself before the
    /// first entry.
    pub open spec fn beta_at_spec(self, t: int) -> int {
        beta_walk(self.beta0.raw as int, self.beta0.raw as int, self.beta_schedule@, t)
    }

    /// The force-of-infection mixing sum of group `a` over the first `m`
    /// source groups: `contact[a][b] * I_b / N_b`, skipping groups whose
    /// current population is not positive.
    pub open spec fn lam_sum(self, y: Seq<int>, a: int, m: nat) -> int
        decreases m,
    {
        if m == 0 {
            0
        } else {
            let b = m - 1;
            let prev = self.lam_sum(y, a, (m - 1) as nat);
            if self.nsum(y, b) > 0 {
                q_add(prev, q_div(q_mul(self.contact_raw(a, b), self.isum(y, b)), self.nsum(y, b)))
            } else {
                prev
            }
        }
    }

    /// The force of infection on group `a` at time `t`.
    pub open spec fn lambda_spec(self, t: int, y: Seq<int>, a: int) -> int {
        q_mul(self.beta_at_spec(t), self.lam_sum(y, a, self.n_age as nat))
    }

    /// The per-stage Exposed exit rate `k_e * sigma`, which keeps the mean
    /// exposed period `1/sigma` for every stage count.
    pub open spec fn ke_sigma_spec(self) -> int {
        q_mul(q_clamp(self.k_e * FIX_SCALE, FIX_MAX_RAW as int), self.sigma.raw as int)
    }

    /// The per-stage Infectious exit rate `k_i * gamma`.
    pub open spec fn ki_gamma_spec(self) -> int {
        q_mul(q_clamp(self.k_i * FIX_SCALE, FIX_MAX_RAW as int), self.gamma.raw as int)
    }

    /// The birth inflow summed over the first `m` bins:
    /// `fertility[b] * female_fraction * S_b`.
    pub open spec fn births_sum(self, y: Seq<int>, m: nat) -> int
        decreases m,
    {
        if m == 0 {
            0
        } else {
            q_add(
                self.births_sum(y, (m - 1) as nat),
                q_mul(
                    q_mul(self.fert_raw(m - 1), self.female_fraction.raw as int),
                    y[self.s_pos(m - 1)],
                ),
            )
        }
    }

    /// Infection outflow of group `a`: `lambda_a * S_a`.
    pub open spec fn to_e_spec(self, t: int, y: Seq<int>, a: int) -> int {
        q_mul(self.lambda_spec(t, y, a), y[self.s_pos(a)])
    }

    /// Vaccination outflow of group `a`: `vacc_a * S_a`.
    pub open spec fn to_rv_spec(self, y: Seq<int>, a: int) -> int {
        q_mul(self.vacc_raw(a), y[self.s_pos(a)])
    }

    /// Outflow of Exposed stage `j` of group `a`.
    pub open spec fn pstage(self, y: Seq<int>, a: int, j: int) -> int {
        q_mul(self.ke_sigma_spec(), y[self.e_pos(a, j)])
    }

    /// Outflow of Infectious stage `j` of group `a`.
    pub open spec fn qstage(self, y: Seq<int>, a: int, j: int) -> int {
        q_mul(self.ki_gamma_spec(), y[self.i_pos(a, j)])
    }

    /// Waning outflow of group `a`: `omega * R_a`.
    pub open spec fn wan_spec(self, y: Seq<int>, a: int) -> int {
        q_mul(self.omega.raw as int, y[self.r_pos(a)])
    }

    /// Derivative of the Susceptible slot of group `a`: waning in, infection
    /// and vaccination out, then mortality, aging, and for the youngest bin
    /// the birth inflow.
    pub open spec fn dy_s_spec(self, t: int, y: Seq<int>, a: int) -> int {
        let ys = y[self.s_pos(a)];
        let m0 = q_sub(
            self.wan_spec(y, a),
            q_add(self.to_e_spec(t, y, a), self.to_rv_spec(y, a)),
        );
        let m1 = q_sub(m0, q_mul(self.mu.raw as int, ys));
        let m2 = q_sub(m1, q_mul(self.age_out_raw(a), ys));
        let m3 = if a > 0 {
            q_add(m2, q_mul(self.age_out_raw(a - 1), y[self.s_pos(a - 1)]))
        } else {
            m2
        };
        if a == 0 {
            q_add(m3, self.births_sum(y, self.n_age as nat))
        } else {
            m3
        }
    }

    /// Derivative of Exposed stage `j` of group `a`: the previous stage's
    /// outflow in (the infection inflow for the first stage), its own
    /// outflow, mortality and aging.
    pub open spec fn dy_e_spec(self, t: int, y: Seq<int>, a: int, j: int) -> int {
        let ye = y[self.e_pos(a, j)];
        let infl = if j == 0 {
            self.to_e_spec(t, y, a)
        } else {
            self.pstage(y, a, j - 1)
        };
        let m0 = q_sub(infl, self.pstage(y, a, j));
        let m1 = q_sub(m0, q_mul(self.mu.raw as int, ye));
        let m2 = q_sub(m1, q_mul(self.age_out_raw(a), ye));
        if a > 0 {
            q_add(m2, q_mul(self.age_out_raw(a - 1), y[self.e_pos(a - 1, j)]))
        } else {
            m2
        }
    }

    /// Derivative of Infectious stage `j` of group `a`: stage progression in
    /// and out, mortality with the infectious surcharge, and aging.
    pub open spec fn dy_i_spec(self, t: int, y: Seq<int>, a: int, j: int) -> int {
        let yi = y[self.i_pos(a, j)];
        let infl = if j == 0 {
            self.pstage(y, a, self.k_e - 1)
        } else {
            self.qstage(y, a, j - 1)
        };
        let m0 = q_sub(infl, self.qstage(y, a, j));
        let m1 = q_sub(m0, q_mul(self.mu.raw as int, yi));
        let m2 = q_sub(m1, q_mul(self.mu_i_extra.raw as int, yi));
        let m3 = q_sub(m2, q_mul(self.age_out_raw(a), yi));
        if a > 0 {
            q_add(m3, q_mul(self.age_out_raw(a - 1), y[self.i_pos(a - 1, j)]))
        } else {
            m3
        }
    }

    /// Derivative of the Recovered slot of group `a`: the last infectious
    /// stage's outflow and the vaccination inflow in, waning out, mortality
    /// and aging.
    pub open spec fn dy_r_spec(self, t: int, y: Seq<int>, a: int) -> int {
        let yr = y[self.r_pos(a)];
        let m0 = q_sub(
            q_add(self.qstage(y, a, self.k_i - 1), self.to_rv_spec(y, a)),
            self.wan_spec(y, a),
        );
        let m1 = q_sub(m0, q_mul(self.mu.raw as int, yr));
        let m2 = q_sub(m1, q_mul(self.age_out_raw(a), yr));
        if a > 0 {
            q_add(m2, q_mul(self.age_out_raw(a - 1), y[self.r_pos(a - 1)]))
        } else {
            m2
        }
    }

    /// Derivative of state slot `i`, decoded into its age group and role.
    pub open spec fn dy_at_spec(self, t: int, y: Seq<int>, i: int) -> int {
        let a = i / self.block_spec();
        let off = i % self.block_spec();
        if off == 0 {
            self.dy_s_spec(t, y, a)
        } else if off <= self.k_e {
            self.dy_e_spec(t, y, a, off - 1)
        } else if off <= self.k_e + self.k_i {
            self.dy_i_spec(t, y, a, off - 1 - self.k_e)
        } else {
            self.dy_r_spec(t, y, a)
        }
    }

    /// The full derivative of the system at time `t` and state `y`.
    pub open spec fn deriv_spec(self, t: int, y: Seq<int>) -> Seq<int> {
        Seq::new(y.len(), |i: int| self.dy_at_spec(t, y, i))
    }

    /// Every slot's derivative is within the saturation bound.
    pub proof fn lemma_deriv_wf(self, t: int, y: Seq<int>)
        ensures
            all_wf(self.deriv_spec(t, y)),
            self.deriv_spec(t, y).len() == y.len(),
    {
        assert forall|i: int| 0 <= i < y.len() implies -FIX_MAX_RAW <= #[trigger] self.deriv_spec(
            t,
            y,
        )[i] <= FIX_MAX_RAW by {
            assert(self.deriv_spec(t, y)[i] == self.dy_at_spec(t, y, i));
        }
    }

    /// The effective transmission rate at time `t`: walk the schedule and
    /// keep the multiplier of the last entry at or before `t`.
    pub fn beta_at(&self, t: Fix) -> (b: Fix)
        requires
            self.fx_ok(),
        ensures
            b.raw == self.beta_at_spec(t.raw as int),
            b.wf(),
    {
        let ghost sched = self.beta_schedule@;
        let ghost b0 = self.beta0.raw as int;
        let ghost tv = t.raw as int;
        let n = self.beta_schedule.len();
        let mut cur = self.beta0;
        let mut idx: usize = 0;
        proof {
            assert(sched.skip(0) =~= sched);
        }
        while idx < n
            invariant_except_break
                idx <= n,
                n == self.beta_schedule.len(),
                sched == self.beta_schedule@,
                b0 == self.beta0.raw as int,
                tv == t.raw as int,
                self.fx_ok(),
                cur.wf(),
                beta_walk(b0, cur.raw as int, sched.skip(idx as int), tv) == self.beta_at_spec(tv),
            ensures
                cur.wf(),
                cur.raw == self.beta_at_spec(tv),
            decreases n - idx,
        {
            let (tt, m) = self.beta_schedule[idx];
            proof {
                assert(sched.skip(idx as int)[0] == sched[idx as int]);
            }
            if t.raw >= tt.raw {
                proof {
                    assert(sched.skip(idx as int).drop_first() =~= sched.skip(idx as int + 1));
                }
                cur = self.beta0.qmul(m);
                idx += 1;
            } else {
                break;
            }
        }
        cur
    }
}

/// Plain integer sum of the `len` entries starting at `lo`.
pub open spec fn int_sum_range(s: Seq<int>, lo: int, len: nat) -> int
    decreases len,
{
    if len == 0 {
        0
    } else {
        int_sum_range(s, lo, (len - 1) as nat) + s[lo + len - 1]
    }
}

/// A sum over a range splits at any interior point.
pub proof fn lemma_sum_split(s: Seq<int>, lo: int, m: nat, k: nat)
    ensures
        int_sum_range(s, lo, (m + k) as nat) == int_sum_range(s, lo, m) + int_sum_range(
            s,
            lo + m,
            k,
        ),
    decreases k,
{
    if k == 0 {
    } else {
        lemma_sum_split(s, lo, m, (k - 1) as nat);
    }
}

/// A product is zero when a factor is.
proof fn lemma_q_mul_zero(x: int)
    ensures
        q_mul(0, x) == 0,
{
    assert(0 * x == 0) by (nonlinear_arith);
    vstd::arithmetic::div_mod::lemma_div_of0(FIX_SCALE as int);
}

/// No mortality and no demographic flows: the configuration under which the
/// epidemic only moves mass between compartments.
pub open spec fn demography_absent(cfg: SeirsConfig) -> bool {
    &&& cfg.mu.raw == 0
    &&& cfg.mu_i_extra.raw == 0
    &&& forall|a: int| 0 <= a < cfg.n_age ==> #[trigger] cfg.aging_raw(a) == 0
    &&& forall|a: int| 0 <= a < cfg.n_age ==> #[trigger] cfg.fert_raw(a) == 0
}

/// The birth inflow vanishes when fertility is absent.
proof fn lemma_births_zero(cfg: SeirsConfig, y: Seq<int>, m: nat)
    requires
        m <= cfg.n_age,
        forall|a: int| 0 <= a < cfg.n_age ==> #[trigger] cfg.fert_raw(a) == 0,
    ensures
        cfg.births_sum(y, m) == 0,
    decreases m,
{
    if m == 0 {
    } else {
        lemma_births_zero(cfg, y, (m - 1) as nat);
        lemma_q_mul_zero(cfg.female_fraction.raw as int);
        lemma_q_mul_zero(y[cfg.s_pos(m - 1)]);
    }
}

/// Saturating subtraction is exact on two product-bounded values.
proof fn lemma_q_sub_exact_small(x: int, z: int)
    requires
        -3 * FIX_MUL_MAX_RAW <= x <= 3 * FIX_MUL_MAX_RAW,
        -3 * FIX_MUL_MAX_RAW <= z <= 3 * FIX_MUL_MAX_RAW,
    ensures
        q_sub(x, z) == x - z,
{
}

/// With no mortality and no demography, the derivative of Exposed stage `j`
/// reduces to the stage flow alone: inflow minus its own outflow.
proof fn lemma_dy_e_reduced(cfg: SeirsConfig, t: int, y: Seq<int>, a: int, j: int)
    requires
        demography_absent(cfg),
        0 <= a < cfg.n_age,
        0 <= j < cfg.k_e,
    ensures
        cfg.dy_e_spec(t, y, a, j) == (if j == 0 {
            cfg.to_e_spec(t, y, a)
        } else {
            cfg.pstage(y, a, j - 1)
        }) - cfg.pstage(y, a, j),
{
    let infl = if j == 0 {
        cfg.to_e_spec(t, y, a)
    } else {
        cfg.pstage(y, a, j - 1)
    };
    let pj = cfg.pstage(y, a, j);
    assert(-FIX_MUL_MAX_RAW <= infl <= FIX_MUL_MAX_RAW);
    assert(-FIX_MUL_MAX_RAW <= pj <= FIX_MUL_MAX_RAW);
    let m0 = q_sub(infl, pj);
    lemma_q_sub_exact_small(infl, pj);
    assert(m0 == infl - pj);
    lemma_q_mul_zero(y[cfg.e_pos(a, j)]);
    lemma_q_sub_exact_small(m0, 0);
    assert(cfg.age_out_raw(a) == 0);
    if a > 0 {
        lemma_q_mul_zero(y[cfg.e_pos(a - 1, j)]);
        assert(cfg.age_out_raw(a - 1) == 0);
        assert(q_add(m0, 0) == m0);
    }
}

/// The Infectious-stage analogue of `lemma_dy_e_reduced`.
proof fn lemma_dy_i_reduced(cfg: SeirsConfig, t: int, y: Seq<int>, a: int, j: int)
    requires
        demography_absent(cfg),
        0 <= a < cfg.n_age,
        0 <= j < cfg.k_i,
    ensures
        cfg.dy_i_spec(t, y, a, j) == (if j == 0 {
            cfg.pstage(y, a, cfg.k_e - 1)
        } else {
            cfg.qstage(y, a, j - 1)
        }) - cfg.qstage(y, a, j),
{
    let infl = if j == 0 {
        cfg.pstage(y, a, cfg.k_e - 1)
    } else {
        cfg.qstage(y, a, j - 1)
    };
    let qj = cfg.qstage(y, a, j);
    assert(-FIX_MUL_MAX_RAW <= infl <= FIX_MUL_MAX_RAW);
    assert(-FIX_MUL_MAX_RAW <= qj <= FIX_MUL_MAX_RAW);
    let m0 = q_sub(infl, qj);
    lemma_q_sub_exact_small(infl, qj);
    lemma_q_mul_zero(y[cfg.i_pos(a, j)]);
    lemma_q_sub_exact_small(m0, 0);
    assert(cfg.age_out_raw(a) == 0);
    if a > 0 {
        lemma_q_mul_zero(y[cfg.i_pos(a - 1, j)]);
        assert(cfg.age_out_raw(a - 1) == 0);
        assert(q_add(m0, 0) == m0);
    }
}

/// With no mortality and no demography, the summed derivative of the Exposed
/// stages of group `a` telescopes: only the infection inflow and the last
/// stage's outflow `k_e * sigma * E_last` remain, whatever the stage count.
/// This is the stage-count invariance of the chain: splitting the exposed
/// period over more stages multiplies the per-stage rate by `k_e` and leaves
/// the chain's aggregate throughput, and so the mean sojourn time `1/sigma`,
/// unchanged.
pub proof fn lemma_exposed_stage_sum(cfg: SeirsConfig, t: int, y: Seq<int>, a: int, m: nat)
    requires
        demography_absent(cfg),
        cfg.k_e >= 1,
        cfg.k_i >= 1,
        0 <= a < cfg.n_age,
        y.len() == cfg.state_size_spec(),
        1 <= m <= cfg.k_e,
    ensures
        int_sum_range(cfg.deriv_spec(t, y), cfg.e_pos(a, 0), m) == cfg.to_e_spec(t, y, a)
            - cfg.pstage(y, a, m - 1),
    decreases m,
{
    lemma_layout(cfg, a);
    lemma_pos_decode(cfg, a, 1 + (m - 1));
    assert(0 <= cfg.e_pos(a, m - 1) < y.len());
    assert(cfg.deriv_spec(t, y)[cfg.e_pos(a, m - 1)] == cfg.dy_at_spec(t, y, cfg.e_pos(a, m - 1)));
    assert(cfg.dy_at_spec(t, y, cfg.e_pos(a, m - 1)) == cfg.dy_e_spec(t, y, a, m - 1));
    lemma_dy_e_reduced(cfg, t, y, a, m - 1);
    if m == 1 {
        reveal_with_fuel(int_sum_range, 2);
        assert(int_sum_range(cfg.deriv_spec(t, y), cfg.e_pos(a, 0), 1) == cfg.deriv_spec(t, y)[cfg.e_pos(a, 0)]);
    } else {
        lemma_exposed_stage_sum(cfg, t, y, a, (m - 1) as nat);
    }
}

/// The Infectious-stage analogue of `lemma_exposed_stage_sum`.
proof fn lemma_infectious_stage_sum(cfg: SeirsConfig, t: int, y: Seq<int>, a: int, m: nat)
    requires
        demography_absent(cfg),
        cfg.k_e >= 1,
        cfg.k_i >= 1,
        0 <= a < cfg.n_age,
        y.len() == cfg.state_size_spec(),
        1 <= m <= cfg.k_i,
    ensures
        int_sum_range(cfg.deriv_spec(t, y), cfg.i_pos(a, 0), m) == cfg.pstage(y, a, cfg.k_e - 1)
            - cfg.qstage(y, a, m - 1),
    decreases m,
{
    lemma_layout(cfg, a);
    lemma_pos_decode(cfg, a, 1 + cfg.k_e + (m - 1));
    assert(0 <= cfg.i_pos(a, m - 1) < y.len());
    assert(cfg.deriv_spec(t, y)[cfg.i_pos(a, m - 1)] == cfg.dy_at_spec(t, y, cfg.i_pos(a, m - 1)));
    assert(cfg.dy_at_spec(t, y, cfg.i_pos(a, m - 1)) == cfg.dy_i_spec(t, y, a, m - 1));
    lemma_dy_i_reduced(cfg, t, y, a, m - 1);
    if m == 1 {
        reveal_with_fuel(int_sum_range, 2);
        assert(int_sum_range(cfg.deriv_spec(t, y), cfg.i_pos(a, 0), 1) == cfg.deriv_spec(t, y)[cfg.i_pos(a, 0)]);
    } else {
        lemma_infectious_stage_sum(cfg, t, y, a, (m - 1) as nat);
    }
}

/// With no mortality and no demography, one age block's derivatives sum to
/// zero: infection, stage progression, vaccination and waning move mass
/// between the block's compartments and never create or destroy it.
proof fn lemma_block_sum_zero(cfg: SeirsConfig, t: int, y: Seq<int>, a: int)
    requires
        demography_absent(cfg),
        cfg.k_e >= 1,
        cfg.k_i >= 1,
        0 <= a < cfg.n_age,
        y.len() == cfg.state_size_spec(),
    ensures
        int_sum_range(cfg.deriv_spec(t, y), cfg.s_pos(a), cfg.block_spec() as nat) == 0,
{
    let dv = cfg.deriv_spec(t, y);
    let base = cfg.s_pos(a);
    let ke = cfg.k_e as nat;
    let ki = cfg.k_i as nat;
    reveal_with_fuel(int_sum_range, 2);
    lemma_layout(cfg, a);

    // Split the block into S, the E stages, the I stages, and R.
    lemma_sum_split(dv, base, 1, ke);
    lemma_sum_split(dv, base, (1 + ke) as nat, ki);
    lemma_sum_split(dv, base, (1 + ke + ki) as nat, 1);
    assert(int_sum_range(dv, base, cfg.block_spec() as nat) == int_sum_range(dv, base, 1)
        + int_sum_range(dv, base + 1, ke) + int_sum_range(dv, base + 1 + ke, ki) + int_sum_range(
        dv,
        base + 1 + ke + ki,
        1,
    ));

    let to_e = cfg.to_e_spec(t, y, a);
    let to_rv = cfg.to_rv_spec(y, a);
    let wan = cfg.wan_spec(y, a);
    assert(-FIX_MUL_MAX_RAW <= to_e <= FIX_MUL_MAX_RAW);
    assert(-FIX_MUL_MAX_RAW <= to_rv <= FIX_MUL_MAX_RAW);
    assert(-FIX_MUL_MAX_RAW <= wan <= FIX_MUL_MAX_RAW);

    // The S slot.
    lemma_pos_decode(cfg, a, 0);
    assert(0 <= base < y.len());
    assert(dv[base] == cfg.dy_s_spec(t, y, a));
    lemma_q_mul_zero(y[cfg.s_pos(a)]);
    if a > 0 {
        lemma_q_mul_zero(y[cfg.s_pos(a - 1)]);
        assert(cfg.age_out_raw(a - 1) == 0);
    }
    assert(cfg.age_out_raw(a) == 0);
    lemma_births_zero(cfg, y, cfg.n_age as nat);
    assert(q_add(to_e, to_rv) == to_e + to_rv);
    let s0 = q_sub(wan, q_add(to_e, to_rv));
    lemma_q_sub_exact_small(wan, to_e + to_rv);
    assert(s0 == wan - to_e - to_rv);
    lemma_q_sub_exact_small(s0, 0);
    assert(q_add(s0, 0) == s0);
    assert(dv[base] == wan - to_e - to_rv);

    // The E and I chains telescope.
    lemma_exposed_stage_sum(cfg, t, y, a, ke);
    lemma_infectious_stage_sum(cfg, t, y, a, ki);
    assert(cfg.e_pos(a, 0) == base + 1);
    assert(cfg.i_pos(a, 0) == base + 1 + ke);

    // The R slot.
    lemma_pos_decode(cfg, a, 1 + cfg.k_e + cfg.k_i);
    assert(0 <= cfg.r_pos(a) < y.len());
    assert(cfg.r_pos(a) == base + 1 + ke + ki);
    assert(dv[cfg.r_pos(a)] == cfg.dy_r_spec(t, y, a));
    lemma_q_mul_zero(y[cfg.r_pos(a)]);
    if a > 0 {
        lemma_q_mul_zero(y[cfg.r_pos(a - 1)]);
    }
    let qlast = cfg.qstage(y, a, cfg.k_i - 1);
    assert(-FIX_MUL_MAX_RAW <= qlast <= FIX_MUL_MAX_RAW);
    assert(q_add(qlast, to_rv) == qlast + to_rv);
    let r0 = q_sub(q_add(qlast, to_rv), wan);
    lemma_q_sub_exact_small(qlast + to_rv, wan);
    assert(r0 == qlast + to_rv - wan);
    lemma_q_sub_exact_small(r0, 0);
    assert(q_add(r0, 0) == r0);
    assert(dv[cfg.r_pos(a)] == qlast + to_rv - wan);
}

/// Conservation: for every valid configuration without mortality or
/// demographic flows, and every state and time, the derivatives of all
/// compartments sum to zero exactly, so the total population is a conserved
/// quantity of the flow whatever the contact structure, transmission
/// schedule, vaccination and waning rates are.
pub proof fn lemma_derivative_conserves_total(cfg: SeirsConfig, t: int, y: Seq<int>)
    requires
        demography_absent(cfg),
        cfg.k_e >= 1,
        cfg.k_i >= 1,
        y.len() == cfg.state_size_spec(),
    ensures
        int_sum_range(cfg.deriv_spec(t, y), 0, cfg.state_size_spec() as nat) == 0,
{
    lemma_prefix_sum_zero(cfg, t, y, cfg.n_age as nat);
    assert(cfg.n_age * cfg.block_spec() == cfg.state_size_spec());
}

/// The derivative sums of the first `m` age blocks vanish.
proof fn lemma_prefix_sum_zero(cfg: SeirsConfig, t: int, y: Seq<int>, m: nat)
    requires
        demography_absent(cfg),
        cfg.k_e >= 1,
        cfg.k_i >= 1,
        y.len() == cfg.state_size_spec(),
        m <= cfg.n_age,
    ensures
        int_sum_range(cfg.deriv_spec(t, y), 0, (m * cfg.block_spec()) as nat) == 0,
    decreases m,
{
    let b = cfg.block_spec();
    if m == 0 {
        assert(m * b == 0) by (nonlinear_arith)
            requires
                m == 0,
        ;
    } else {
        lemma_prefix_sum_zero(cfg, t, y, (m - 1) as nat);
        lemma_block_sum_zero(cfg, t, y, m - 1);
        assert(0 <= (m - 1) * b && (m - 1) * b + b == m * b) by (nonlinear_arith)
            requires
                m >= 1,
                b >= 2,
        ;
        lemma_sum_split(cfg.deriv_spec(t, y), 0, ((m - 1) * b) as nat, b as nat);
        assert(cfg.s_pos(m - 1) == (m - 1) * b);
    }
}

/// Fixed-point fold continuing from `acc` over `len` slots starting at `lo`.
pub open spec fn sum_fx_acc(acc: int, y: Seq<int>, lo: int, len: nat) -> int
    decreases len,
{
    if len == 0 {
        acc
    } else {
        q_add(sum_fx_acc(acc, y, lo, (len - 1) as nat), y[lo + len - 1])
    }
}

impl SeirsConfig {
    /// Total Susceptible mass of the first `m` age groups.
    pub open spec fn stot_spec(self, y: Seq<int>, m: nat) -> int
        decreases m,
    {
        if m == 0 {
            0
        } else {
            q_add(self.stot_spec(y, (m - 1) as nat), y[self.s_pos(m - 1)])
        }
    }

    /// Total Exposed mass of the first `m` age groups.
    pub open spec fn etot_spec(self, y: Seq<int>, m: nat) -> int
        decreases m,
    {
        if m == 0 {
            0
        } else {
            sum_fx_acc(self.etot_spec(y, (m - 1) as nat), y, self.e_pos(m - 1, 0), self.k_e as nat)
        }
    }

    /// Total Infectious mass of the first `m` age groups.
    pub open spec fn itot_spec(self, y: Seq<int>, m: nat) -> int
        decreases m,
    {
        if m == 0 {
            0
        } else {
            sum_fx_acc(self.itot_spec(y, (m - 1) as nat), y, self.i_pos(m - 1, 0), self.k_i as nat)
        }
    }

    /// Total Recovered mass of the first `m` age groups.
    pub open spec fn rtot_spec(self, y: Seq<int>, m: nat) -> int
        decreases m,
    {
        if m == 0 {
            0
        } else {
            q_add(self.rtot_spec(y, (m - 1) as nat), y[self.r_pos(m - 1)])
        }
    }
}

/// Sum each compartment family over all age groups: the total Susceptible,
/// Exposed, Infectious and Recovered mass of the state.
#[verifier::loop_isolation(false)]
pub fn totals(cfg: &SeirsConfig, y: &Vec<Fix>) -> (r: (Fix, Fix, Fix, Fix))
    requires
        y@.len() == cfg.state_size_spec(),
        all_wf(raws(y@)),
    ensures
        r.0.raw == cfg.stot_spec(raws(y@), cfg.n_age as nat),
        r.1.raw == cfg.etot_spec(raws(y@), cfg.n_age as nat),
        r.2.raw == cfg.itot_spec(raws(y@), cfg.n_age as nat),
        r.3.raw == cfg.rtot_spec(raws(y@), cfg.n_age as nat),
        r.0.wf() && r.1.wf() && r.2.wf() && r.3.wf(),
{
    let ghost yv = raws(y@);
    let n_state = y.len();
    let mut s_tot = Fix { raw: 0 };
    let mut e_tot = Fix { raw: 0 };
    let mut i_tot = Fix { raw: 0 };
    let mut r_tot = Fix { raw: 0 };
    let mut a: usize = 0;
    while a < cfg.n_age
        invariant
            a <= cfg.n_age,
            s_tot.raw == cfg.stot_spec(yv, a as nat),
            e_tot.raw == cfg.etot_spec(yv, a as nat),
            i_tot.raw == cfg.itot_spec(yv, a as nat),
            r_tot.raw == cfg.rtot_spec(yv, a as nat),
            s_tot.wf(),
            e_tot.wf(),
            i_tot.wf(),
            r_tot.wf(),
        decreases cfg.n_age - a,
    {
        let (s_idx, e0, i0, r_idx) = indices(cfg, a);
        s_tot = s_tot.qadd(y[s_idx]);
        let mut j: usize = 0;
        while j < cfg.k_e
            invariant
                j <= cfg.k_e,
                a < cfg.n_age,
                e0 == cfg.e_pos(a as int, 0),
                e_tot.raw == sum_fx_acc(cfg.etot_spec(yv, a as nat), yv, cfg.e_pos(a as int, 0), j as nat),
                e_tot.wf(),
            decreases cfg.k_e - j,
        {
            e_tot = e_tot.qadd(y[e0 + j]);
            j += 1;
        }
        let mut j2: usize = 0;
        while j2 < cfg.k_i
            invariant
                j2 <= cfg.k_i,
                a < cfg.n_age,
                i0 == cfg.i_pos(a as int, 0),
                i_tot.raw == sum_fx_acc(cfg.itot_spec(yv, a as nat), yv, cfg.i_pos(a as int, 0), j2 as nat),
                i_tot.wf(),
            decreases cfg.k_i - j2,
        {
            i_tot = i_tot.qadd(y[i0 + j2]);
            j2 += 1;
        }
        r_tot = r_tot.qadd(y[r_idx]);
        a += 1;
    }
    (s_tot, e_tot, i_tot, r_tot)
}

/// The vaccination rate of group `a`, zero when absent.
fn vacc_at(cfg: &SeirsConfig, a: usize) -> (f: Fix)
    requires
        a < cfg.n_age,
        cfg.shape_ok(),
        cfg.fx_ok(),
    ensures
        f.raw == cfg.vacc_raw(a as int),
        f.wf(),
{
    match &cfg.vacc_rate {
        Some(v) => v[a],
        None => Fix { raw: 0 },
    }
}

/// The fertility rate of group `a`, zero when absent.
fn fert_at(cfg: &SeirsConfig, a: usize) -> (f: Fix)
    requires
        a < cfg.n_age,
        cfg.shape_ok(),
        cfg.fx_ok(),
    ensures
        f.raw == cfg.fert_raw(a as int),
        f.wf(),
{
    match &cfg.fertility_per_day {
        Some(v) => v[a],
        None => Fix { raw: 0 },
    }
}

/// The aging outflow rate of group `a`, zero for the oldest bin or when
/// absent.
fn age_out_at(cfg: &SeirsConfig, a: usize) -> (f: Fix)
    requires
        a < cfg.n_age,
        cfg.shape_ok(),
        cfg.fx_ok(),
    ensures
        f.raw == cfg.age_out_raw(a as int),
        f.wf(),
{
    if a + 1 < cfg.n_age {
        match &cfg.aging_rate_per_day {
            Some(v) => v[a],
            None => Fix { raw: 0 },
        }
    } else {
        Fix { raw: 0 }
    }
}

/// Compute the derivative at `(t, y)` into `dy`, using three caller-supplied
/// per-age scratch buffers for the infectious sums, the current populations
/// and the force of infection.
#[verifier::loop_isolation(false)]
#[verifier::rlimit(100)]
pub fn deriv_core(
    cfg: &SeirsConfig,
    t: Fix,
    y: &Vec<Fix>,
    dy: &mut Vec<Fix>,
    ib: &mut Vec<Fix>,
    nb: &mut Vec<Fix>,
    lb: &mut Vec<Fix>,
)
    requires
        cfg.shape_ok(),
        cfg.fx_ok(),
        t.wf(),
        y@.len() == cfg.state_size_spec(),
        all_wf(raws(y@)),
        old(dy)@.len() == y@.len(),
        old(ib)@.len() == cfg.n_age,
        old(nb)@.len() == cfg.n_age,
        old(lb)@.len() == cfg.n_age,
    ensures
        raws(final(dy)@) == cfg.deriv_spec(t.raw as int, raws(y@)),
        final(dy)@.len() == y@.len(),
        final(ib)@.len() == cfg.n_age,
        final(nb)@.len() == cfg.n_age,
        final(lb)@.len() == cfg.n_age,
{
    let ghost yv = raws(y@);
    let ghost tv = t.raw as int;
    let na = cfg.n_age;
    let n_state = y.len();
    assert(cfg.state_size_spec() <= usize::MAX);

    // Per-age aggregates: infectious sums and current populations.
    let mut a: usize = 0;
    while a < na
        invariant
            a <= na,
            ib.len() == na,
            nb.len() == na,
            forall|b: int|
                0 <= b < a ==> (#[trigger] ib@[b]).raw == cfg.isum(yv, b) && ib@[b].wf(),
            forall|b: int|
                0 <= b < a ==> (#[trigger] nb@[b]).raw == cfg.nsum(yv, b) && nb@[b].wf(),
        decreases na - a,
    {
        let (s_idx, e0, i0, r_idx) = indices(cfg, a);
        let s = y[s_idx];
        let r = y[r_idx];
        let mut es = Fix { raw: 0 };
        let mut j: usize = 0;
        while j < cfg.k_e
            invariant
                j <= cfg.k_e,
                a < na,
                e0 == cfg.e_pos(a as int, 0),
                es.raw == sum_fx(yv, cfg.e_pos(a as int, 0), j as nat),
                es.wf(),
            decreases cfg.k_e - j,
        {
            es = es.qadd(y[e0 + j]);
            j += 1;
        }
        let mut is_sum = Fix { raw: 0 };
        let mut j2: usize = 0;
        while j2 < cfg.k_i
            invariant
                j2 <= cfg.k_i,
                a < na,
                i0 == cfg.i_pos(a as int, 0),
                is_sum.raw == sum_fx(yv, cfg.i_pos(a as int, 0), j2 as nat),
                is_sum.wf(),
            decreases cfg.k_i - j2,
        {
            is_sum = is_sum.qadd(y[i0 + j2]);
            j2 += 1;
        }
        let nv = s.qadd(es).qadd(is_sum).qadd(r);
        ib.set(a, is_sum);
        nb.set(a, nv);
        a += 1;
    }

    // Force of infection per age group.
    let beta = cfg.beta_at(t);
    let mut a2: usize = 0;
    while a2 < na
        invariant
            a2 <= na,
            ib.len() == na,
            nb.len() == na,
            lb.len() == na,
            forall|b: int|
                0 <= b < na ==> (#[trigger] ib@[b]).raw == cfg.isum(yv, b) && ib@[b].wf(),
            forall|b: int|
                0 <= b < na ==> (#[trigger] nb@[b]).raw == cfg.nsum(yv, b) && nb@[b].wf(),
            forall|b: int|
                0 <= b < a2 ==> (#[trigger] lb@[b]).raw == cfg.lambda_spec(tv, yv, b)
                    && lb@[b].wf(),
        decreases na - a2,
    {
        let row = &cfg.contact[a2];
        let mut sum = Fix { raw: 0 };
        let mut b: usize = 0;
        while b < na
            invariant
                b <= na,
                a2 < na,
                ib.len() == na,
                nb.len() == na,
                row == &cfg.contact@[a2 as int],
                forall|k: int|
                    0 <= k < na ==> (#[trigger] ib@[k]).raw == cfg.isum(yv, k) && ib@[k].wf(),
                forall|k: int|
                    0 <= k < na ==> (#[trigger] nb@[k]).raw == cfg.nsum(yv, k) && nb@[k].wf(),
                sum.raw == cfg.lam_sum(yv, a2 as int, b as nat),
                sum.wf(),
            decreases na - b,
        {
            let nbv = nb[b];
            if nbv.raw > 0 {
                sum = sum.qadd(row[b].qmul(ib[b]).qdiv(nbv));
            }
            b += 1;
        }
        lb.set(a2, beta.qmul(sum));
        a2 += 1;
    }

    // Birth inflow into the youngest bin.
    let ff = cfg.female_fraction;
    let mut births = Fix { raw: 0 };
    let mut b2: usize = 0;
    while b2 < na
        invariant
            b2 <= na,
            births.raw == cfg.births_sum(yv, b2 as nat),
            births.wf(),
        decreases na - b2,
    {
        let (sb, _eb, _ib2, _rb) = indices(cfg, b2);
        births = births.qadd(fert_at(cfg, b2).qmul(ff).qmul(y[sb]));
        b2 += 1;
    }

    // Transitions, one age block at a time.
    let ke_sigma = Fix::from_usize(cfg.k_e).qmul(cfg.sigma);
    let ki_gamma = Fix::from_usize(cfg.k_i).qmul(cfg.gamma);
    let ghost block = cfg.block_spec();
    let mut a3: usize = 0;
    while a3 < na
        invariant
            a3 <= na,
            dy.len() == y@.len(),
            ib.len() == na,
            nb.len() == na,
            lb.len() == na,
            forall|k: int|
                0 <= k < na ==> (#[trigger] lb@[k]).raw == cfg.lambda_spec(tv, yv, k)
                    && lb@[k].wf(),
            forall|i: int|
                0 <= i < a3 * block ==> (#[trigger] dy@[i]).raw == cfg.dy_at_spec(tv, yv, i),
        decreases na - a3,
    {
        proof {
            lemma_layout(*cfg, a3 as int);
        }
        let (s_idx, e0, i0, r_idx) = indices(cfg, a3);
        let s = y[s_idx];
        let r = y[r_idx];
        let lam = lb[a3];
        let vacc = vacc_at(cfg, a3);
        let to_e = lam.qmul(s);
        let to_rv = vacc.qmul(s);
        let wan = cfg.omega.qmul(r);
        let aout = age_out_at(cfg, a3);
        let aprev = if a3 > 0 {
            age_out_at(cfg, a3 - 1)
        } else {
            Fix { raw: 0 }
        };
        let prev_idx = if a3 > 0 {
            let (sp, _ep, _ip, _rp) = indices(cfg, a3 - 1);
            sp
        } else {
            0
        };
        proof {
            if a3 > 0 {
                lemma_layout(*cfg, a3 as int - 1);
            }
        }

        // Susceptible slot.
        let mut acc = wan.qsub(to_e.qadd(to_rv));
        acc = acc.qsub(cfg.mu.qmul(s));
        acc = acc.qsub(aout.qmul(s));
        if a3 > 0 {
            acc = acc.qadd(aprev.qmul(y[prev_idx]));
        } else {
            acc = acc.qadd(births);
        }
        dy.set(s_idx, acc);
        proof {
            lemma_pos_decode(*cfg, a3 as int, 0);
            assert(dy@[s_idx as int].raw == cfg.dy_at_spec(tv, yv, s_idx as int));
        }

        // Exposed stages.
        let mut infl = to_e;
        let mut j: usize = 0;
        while j < cfg.k_e
            invariant
                j <= cfg.k_e,
                a3 < na,
                dy.len() == y@.len(),
                infl.wf(),
                infl.raw == if j == 0 {
                    cfg.to_e_spec(tv, yv, a3 as int)
                } else {
                    cfg.pstage(yv, a3 as int, j - 1)
                },
                forall|i: int|
                    0 <= i < a3 * block + 1 + j ==> (#[trigger] dy@[i]).raw == cfg.dy_at_spec(
                        tv,
                        yv,
                        i,
                    ),
            decreases cfg.k_e - j,
        {
            let ye = y[e0 + j];
            let pout = ke_sigma.qmul(ye);
            let mut acc_e = infl.qsub(pout);
            acc_e = acc_e.qsub(cfg.mu.qmul(ye));
            acc_e = acc_e.qsub(aout.qmul(ye));
            if a3 > 0 {
                acc_e = acc_e.qadd(aprev.qmul(y[prev_idx + 1 + j]));
            }
            dy.set(e0 + j, acc_e);
            proof {
                lemma_pos_decode(*cfg, a3 as int, 1 + j);
                assert(dy@[e0 + j as int].raw == cfg.dy_at_spec(tv, yv, e0 + j as int));
            }
            infl = pout;
            j += 1;
        }

        // Infectious stages.
        let mut j2: usize = 0;
        while j2 < cfg.k_i
            invariant
                j2 <= cfg.k_i,
                a3 < na,
                dy.len() == y@.len(),
                infl.wf(),
                infl.raw == if j2 == 0 {
                    cfg.pstage(yv, a3 as int, cfg.k_e - 1)
                } else {
                    cfg.qstage(yv, a3 as int, j2 - 1)
                },
                forall|i: int|
                    0 <= i < a3 * block + 1 + cfg.k_e + j2 ==> (#[trigger] dy@[i]).raw
                        == cfg.dy_at_spec(tv, yv, i),
            decreases cfg.k_i - j2,
        {
            let yi = y[i0 + j2];
            let qout = ki_gamma.qmul(yi);
            let mut acc_i = infl.qsub(qout);
            acc_i = acc_i.qsub(cfg.mu.qmul(yi));
            acc_i = acc_i.qsub(cfg.mu_i_extra.qmul(yi));
            acc_i = acc_i.qsub(aout.qmul(yi));
            if a3 > 0 {
                acc_i = acc_i.qadd(aprev.qmul(y[prev_idx + 1 + cfg.k_e + j2]));
            }
            dy.set(i0 + j2, acc_i);
            proof {
                lemma_pos_decode(*cfg, a3 as int, 1 + cfg.k_e + j2);
                assert(dy@[i0 + j2 as int].raw == cfg.dy_at_spec(tv, yv, i0 + j2 as int));
            }
            infl = qout;
            j2 += 1;
        }

        // Recovered slot.
        let mut acc_r = infl.qadd(to_rv).qsub(wan);
        acc_r = acc_r.qsub(cfg.mu.qmul(r));
        acc_r = acc_r.qsub(aout.qmul(r));
        if a3 > 0 {
            acc_r = acc_r.qadd(aprev.qmul(y[prev_idx + 1 + cfg.k_e + cfg.k_i]));
        }
        dy.set(r_idx, acc_r);
        proof {
            lemma_pos_decode(*cfg, a3 as int, 1 + cfg.k_e + cfg.k_i);
            assert(dy@[r_idx as int].raw == cfg.dy_at_spec(tv, yv, r_idx as int));
        }
        a3 += 1;
    }
    proof {
        assert(raws(dy@) =~= cfg.deriv_spec(tv, yv));
    }
}

/// The compartment state of one simulation run: a flat fixed-point vector in
/// the per-age layout `S | E1..Ek_e | I1..Ik_i | R`.
#[derive(Clone, Debug)]
pub struct SeirsState {
    /// The flat compartment vector.
    pub y: Vec<Fix>,
}

/// The seeded count of age group `a`: the requested seeding, clamped to the
/// group's population (itself floored at zero).
pub open spec fn seed_spec(cfg: SeirsConfig, seeding: Seq<int>, a: int) -> int {
    q_min(seeding[a], q_max(raws(cfg.pop@)[a], 0))
}

/// The initial value of state slot `i`: the seeded count in the first
/// infectious stage, the rest of the group's population in Susceptible, zero
/// everywhere else.
pub open spec fn init_at(cfg: SeirsConfig, seeding: Seq<int>, i: int) -> int {
    let a = i / cfg.block_spec();
    let off = i % cfg.block_spec();
    if off == 0 {
        q_sub(raws(cfg.pop@)[a], seed_spec(cfg, seeding, a))
    } else if off == 1 + cfg.k_e {
        seed_spec(cfg, seeding, a)
    } else {
        0
    }
}

impl SeirsState {
    /// A state of the configuration's size with every compartment zero.
    pub fn new_zero(cfg: &SeirsConfig) -> (s: SeirsState)
        requires
            cfg.block_spec() <= usize::MAX,
            cfg.state_size_spec() <= usize::MAX,
        ensures
            s.y@.len() == cfg.state_size_spec(),
            forall|i: int| 0 <= i < s.y@.len() ==> (#[trigger] s.y@[i]).raw == 0,
    {
        SeirsState { y: crate::ode::fix_zero_vec(cfg.state_size()) }
    }

    /// The initial condition from a per-age seeding vector: each group's
    /// seeded infections (clamped to its population) are placed in the first
    /// infectious stage, the remainder of the population in Susceptible, and
    /// every other compartment is zero.
    pub fn init_from_seeding(cfg: &SeirsConfig, seeding_per_age: &Vec<Fix>) -> (s: SeirsState)
        requires
            cfg.shape_ok(),
            cfg.fx_ok(),
            cfg.block_spec() <= usize::MAX,
            cfg.state_size_spec() <= usize::MAX,
            seeding_per_age@.len() == cfg.n_age,
            all_wf(raws(seeding_per_age@)),
        ensures
            s.y@.len() == cfg.state_size_spec(),
            raws(s.y@) == Seq::new(cfg.state_size_spec() as nat, |i: int| init_at(*cfg, raws(seeding_per_age@), i)),
            all_wf(raws(s.y@)),
    {
        let ghost sv = raws(seeding_per_age@);
        let mut s = SeirsState::new_zero(cfg);
        let mut a: usize = 0;
        while a < cfg.n_age
            invariant
                a <= cfg.n_age,
                cfg.shape_ok(),
                cfg.fx_ok(),
                cfg.state_size_spec() <= usize::MAX,
                seeding_per_age@.len() == cfg.n_age,
                sv == raws(seeding_per_age@),
                all_wf(sv),
                s.y@.len() == cfg.state_size_spec(),
                forall|i: int|
                    0 <= i < s.y@.len() && i < a * cfg.block_spec() ==> (#[trigger] s.y@[i]).raw
                        == init_at(*cfg, sv, i) && s.y@[i].wf(),
                forall|i: int|
                    a * cfg.block_spec() <= i < s.y@.len() ==> (#[trigger] s.y@[i]).raw == 0,
            decreases cfg.n_age - a,
        {
            proof {
                lemma_layout(*cfg, a as int);
            }
            let n = cfg.pop[a];
            proof {
                assert(raws(cfg.pop@)[a as int] == cfg.pop@[a as int].raw as int);
                assert(raws(seeding_per_age@)[a as int] == seeding_per_age@[a as int].raw as int);
            }
            let seed = seeding_per_age[a].qmin(n.qmax(Fix { raw: 0 }));
            assert(seed.wf());
            let (idx_s, _e0, i0, _r) = indices(cfg, a);
            let s_val = n.qsub(seed);
            s.y.set(idx_s, s_val);
            s.y.set(i0, seed);
            proof {
                let b = cfg.block_spec();
                assert forall|i: int|
                    a * b <= i < (a + 1) * b implies (#[trigger] s.y@[i]).raw == init_at(
                    *cfg,
                    sv,
                    i,
                ) && s.y@[i].wf() by {
                    lemma_pos_decode(*cfg, a as int, i - a * b);
                }
                assert forall|i: int|
                    0 <= i < s.y@.len() && i < (a + 1) * b implies (#[trigger] s.y@[i]).raw
                    == init_at(*cfg, sv, i) by {
                }
            }
            a += 1;
        }
        proof {
            assert(raws(s.y@) =~= Seq::new(
                cfg.state_size_spec() as nat,
                |i: int| init_at(*cfg, sv, i),
            ));
            assert forall|k: int| 0 <= k < raws(s.y@).len() implies -FIX_MAX_RAW <= #[trigger] raws(
                s.y@,
            )[k] <= FIX_MAX_RAW by {
                assert(s.y@[k].wf());
            }
        }
        s
    }
}

/// Per-age working buffers of one derivative evaluation: infectious sums,
/// current populations, and the force of infection.
pub struct SeirsScratch {
    /// Per-age infectious sums.
    pub i_by_age: Vec<Fix>,
    /// Per-age current populations.
    pub n_by_age: Vec<Fix>,
    /// Per-age force of infection.
    pub lambda: Vec<Fix>,
}

impl crate::ode::OdeRhs for SeirsConfig {
    type Scratch = SeirsScratch;

    /// The SEIRS derivative.
    open spec fn rhs_spec(&self, t: int, y: Seq<int>) -> Seq<int> {
        self.deriv_spec(t, y)
    }

    /// A valid configuration and a well-formed state of its size.
    open spec fn rhs_req(&self, y: Seq<int>) -> bool {
        &&& self.shape_ok()
        &&& self.fx_ok()
        &&& y.len() == self.state_size_spec()
        &&& all_wf(y)
    }

    /// Three per-age buffers.
    open spec fn scratch_ok(&self, sc: SeirsScratch) -> bool {
        &&& sc.i_by_age@.len() == self.n_age
        &&& sc.n_by_age@.len() == self.n_age
        &&& sc.lambda@.len() == self.n_age
    }

    proof fn rhs_req_stable(&self, y1: Seq<int>, y2: Seq<int>) {
    }

    proof fn rhs_len(&self, t: int, y: Seq<int>) {
        self.lemma_deriv_wf(t, y);
    }

    fn new_scratch(&self) -> (sc: SeirsScratch) {
        SeirsScratch {
            i_by_age: crate::ode::fix_zero_vec(self.n_age),
            n_by_age: crate::ode::fix_zero_vec(self.n_age),
            lambda: crate::ode::fix_zero_vec(self.n_age),
        }
    }

    fn eval_rhs(&self, t: Fix, y: &Vec<Fix>, dy: &mut Vec<Fix>, sc: &mut SeirsScratch) {
        let SeirsScratch { i_by_age, n_by_age, lambda } = sc;
        deriv_core(self, t, y, dy, i_by_age, n_by_age, lambda);
    }
}

/// An independent copy of a state vector.
fn copy_fix_vec(v: &Vec<Fix>) -> (r: Vec<Fix>)
    ensures
        r@ == v@,
{
    let mut r: Vec<Fix> = Vec::new();
    let mut i: usize = 0;
    while i < v.len()
        invariant
            i <= v.len(),
            r@ == v@.take(i as int),
        decreases v.len() - i,
    {
        r.push(v[i]);
        proof {
            assert(r@ =~= v@.take(i + 1 as int));
        }
        i += 1;
    }
    proof {
        assert(v@.take(v@.len() as int) =~= v@);
    }
    r
}

/// The recorded points of a trajectory, over raw values.
pub open spec fn traj_vals(s: Seq<(Fix, Vec<Fix>)>) -> Seq<(int, Seq<int>)> {
    s.map_values(|p: (Fix, Vec<Fix>)| (p.0.raw as int, raws(p.1@)))
}

/// The trajectory from state `y` at time `t`: the current point, then, while
/// `t` has not reached `t_end`, the points after each RK4 step of size `dt`.
pub open spec fn sim_points(cfg: SeirsConfig, y: Seq<int>, t: int, t_end: int, dt: int) -> Seq<
    (int, Seq<int>),
>
    decreases
            (if t < t_end {
                t_end - t
            } else {
                0
            }),
    when 0 < dt && -FIX_MAX_RAW <= t && t_end <= FIX_MAX_RAW
{
    if t >= t_end {
        seq![(t, y)]
    } else {
        seq![(t, y)] + sim_points(
            cfg,
            crate::ode::rk4_step_spec(&cfg, y, t, dt),
            q_add(t, dt),
            t_end,
            dt,
        )
    }
}

/// The trajectory driver's point count: integrating from `t0` over exactly
/// `k` whole steps of size `dt` records `k + 1` points, the initial state
/// and one snapshot per step, whatever the state and configuration are. The
/// bound on `t_end + dt` keeps the time accumulation on the exact grid.
pub proof fn lemma_sim_points_count(
    cfg: SeirsConfig,
    y: Seq<int>,
    t0: int,
    t_end: int,
    dt: int,
    k: nat,
)
    requires
        0 < dt,
        -FIX_MAX_RAW <= t0,
        t_end == t0 + k * dt,
        t_end + dt <= FIX_MAX_RAW,
    ensures
        sim_points(cfg, y, t0, t_end, dt).len() == k + 1,
    decreases k,
{
    if k == 0 {
        assert(k * dt == 0) by (nonlinear_arith)
            requires
                k == 0,
        ;
    } else {
        assert(t0 + dt <= t_end && t_end == (t0 + dt) + (k - 1) * dt) by (nonlinear_arith)
            requires
                k >= 1,
                dt > 0,
                t_end == t0 + k * dt,
        ;
        assert(q_add(t0, dt) == t0 + dt);
        lemma_sim_points_count(
            cfg,
            crate::ode::rk4_step_spec(&cfg, y, t0, dt),
            t0 + dt,
            t_end,
            dt,
            (k - 1) as nat,
        );
    }
}

/// A model ready to run: the validated configuration plus reusable
/// integration buffers.
pub struct SeirsModel {
    /// The validated configuration.
    pub cfg: SeirsConfig,
    /// Per-age scratch for the buffer-reusing derivative.
    pub i_by_age: Vec<Fix>,
    /// Per-age scratch for the buffer-reusing derivative.
    pub n_by_age: Vec<Fix>,
    /// Per-age scratch for the buffer-reusing derivative.
    pub lambda: Vec<Fix>,
    /// Stage buffers reused across the optimized run's steps.
    pub rk_ws: crate::ode::Rk4Workspace,
}

impl SeirsModel {
    /// A valid configuration (`shape_ok` and `fx_ok`) and per-age buffers of
    /// its size; established by `new`, preserved by every method.
    pub open spec fn wf(self) -> bool {
        &&& self.cfg.shape_ok()
        &&& self.cfg.fx_ok()
        &&& self.i_by_age@.len() == self.cfg.n_age
        &&& self.n_by_age@.len() == self.cfg.n_age
        &&& self.lambda@.len() == self.cfg.n_age
    }

    /// Validate the configuration and build a model around it. Fails with
    /// the first violated invariant exactly when validation does.
    pub fn new(cfg: SeirsConfig) -> (r: Result<SeirsModel, ConfigError>)
        requires
            cfg.fx_ok(),
        ensures
            r is Ok <==> cfg.shape_ok(),
            (r matches Ok(m) ==> m.cfg == cfg && m.wf()),
            (r matches Err(e) ==> Err::<(), ConfigError>(e) == cfg.check_spec()),
    {
        match cfg.check() {
            Err(e) => Err(e),
            Ok(()) => {
                let na = cfg.n_age;
                Ok(
                    SeirsModel {
                        cfg,
                        i_by_age: crate::ode::fix_zero_vec(na),
                        n_by_age: crate::ode::fix_zero_vec(na),
                        lambda: crate::ode::fix_zero_vec(na),
                        rk_ws: crate::ode::Rk4Workspace::new(0),
                    },
                )
            },
        }
    }

    /// The derivative at `(t, y)`, written into `dy`, with locally allocated
    /// intermediates.
    pub fn deriv(&self, t: Fix, y: &Vec<Fix>, dy: &mut Vec<Fix>)
        requires
            self.wf(),
            t.wf(),
            y@.len() == self.cfg.state_size_spec(),
            all_wf(raws(y@)),
            old(dy)@.len() == y@.len(),
        ensures
            raws(final(dy)@) == self.cfg.deriv_spec(t.raw as int, raws(y@)),
            final(dy)@.len() == y@.len(),
    {
        let na = self.cfg.n_age;
        let mut ib = crate::ode::fix_zero_vec(na);
        let mut nb = crate::ode::fix_zero_vec(na);
        let mut lb = crate::ode::fix_zero_vec(na);
        deriv_core(&self.cfg, t, y, dy, &mut ib, &mut nb, &mut lb);
    }

    /// The derivative at `(t, y)`, written into `dy`, reusing the model's
    /// per-age buffers instead of allocating. Produces exactly what `deriv`
    /// produces.
    pub fn deriv_allocfree_mut(&mut self, t: Fix, y: &Vec<Fix>, dy: &mut Vec<Fix>)
        requires
            old(self).wf(),
            t.wf(),
            y@.len() == old(self).cfg.state_size_spec(),
            all_wf(raws(y@)),
            old(dy)@.len() == y@.len(),
        ensures
            raws(final(dy)@) == old(self).cfg.deriv_spec(t.raw as int, raws(y@)),
            final(dy)@.len() == y@.len(),
            final(self).cfg == old(self).cfg,
            final(self).wf(),
    {
        deriv_core(
            &self.cfg,
            t,
            y,
            dy,
            &mut self.i_by_age,
            &mut self.n_by_age,
            &mut self.lambda,
        );
    }

    /// Run the model from `t0` to `t_end` at fixed step `dt`, recording
    /// `(time, state)` after every step, the initial state first. Each
    /// snapshot is an independent copy. Time accumulates exactly on the
    /// fixed-point grid, so a whole number of steps never drops or
    /// duplicates the final point. Stage buffers are allocated afresh each
    /// step.
    pub fn simulate(&self, state: &mut SeirsState, t0: Fix, t_end: Fix, dt: Fix) -> (out: Vec<
        (Fix, Vec<Fix>),
    >)
        requires
            self.wf(),
            t0.wf(),
            t_end.wf(),
            dt.wf(),
            dt.raw > 0,
            old(state).y@.len() == self.cfg.state_size_spec(),
            all_wf(raws(old(state).y@)),
        ensures
            traj_vals(out@) == sim_points(
                self.cfg,
                raws(old(state).y@),
                t0.raw as int,
                t_end.raw as int,
                dt.raw as int,
            ),
            out@.len() >= 1,
            traj_vals(out@).last().1 == raws(final(state).y@),
            final(state).y@.len() == old(state).y@.len(),
            all_wf(raws(final(state).y@)),
    {
        let mut sc = crate::ode::OdeRhs::new_scratch(&self.cfg);
        simulate_loop(&self.cfg, state, t0, t_end, dt, None, &mut sc)
    }

    /// Run the model exactly as `simulate` does, but reuse the model's RK4
    /// workspace and one scratch set across all steps instead of allocating
    /// per step. Produces the identical trajectory.
    pub fn simulate_optimized(&mut self, state: &mut SeirsState, t0: Fix, t_end: Fix, dt: Fix)
        -> (out: Vec<(Fix, Vec<Fix>)>)
        requires
            old(self).wf(),
            t0.wf(),
            t_end.wf(),
            dt.wf(),
            dt.raw > 0,
            old(state).y@.len() == old(self).cfg.state_size_spec(),
            all_wf(raws(old(state).y@)),
        ensures
            traj_vals(out@) == sim_points(
                old(self).cfg,
                raws(old(state).y@),
                t0.raw as int,
                t_end.raw as int,
                dt.raw as int,
            ),
            out@.len() >= 1,
            traj_vals(out@).last().1 == raws(final(state).y@),
            final(state).y@.len() == old(state).y@.len(),
            all_wf(raws(final(state).y@)),
            final(self).cfg == old(self).cfg,
            final(self).wf(),
    {
        let mut sc = crate::ode::OdeRhs::new_scratch(&self.cfg);
        let n = state.y.len();
        self.rk_ws.resize(n);
        simulate_loop(&self.cfg, state, t0, t_end, dt, Some(&mut self.rk_ws), &mut sc)
    }
}

/// The shared trajectory loop: step, advance time, snapshot, with the stage
/// buffers either taken from the caller's workspace or allocated per step.
#[verifier::loop_isolation(false)]
fn simulate_loop(
    cfg: &SeirsConfig,
    state: &mut SeirsState,
    t0: Fix,
    t_end: Fix,
    dt: Fix,
    ws: Option<&mut crate::ode::Rk4Workspace>,
    sc: &mut SeirsScratch,
) -> (out: Vec<(Fix, Vec<Fix>)>)
    requires
        cfg.shape_ok(),
        cfg.fx_ok(),
        t0.wf(),
        t_end.wf(),
        dt.wf(),
        dt.raw > 0,
        crate::ode::OdeRhs::scratch_ok(cfg, *old(sc)),
        old(state).y@.len() == cfg.state_size_spec(),
        all_wf(raws(old(state).y@)),
    ensures
        traj_vals(out@) == sim_points(
            *cfg,
            raws(old(state).y@),
            t0.raw as int,
            t_end.raw as int,
            dt.raw as int,
        ),
        out@.len() >= 1,
        traj_vals(out@).last().1 == raws(final(state).y@),
        final(state).y@.len() == old(state).y@.len(),
        all_wf(raws(final(state).y@)),
{
    let ghost y0 = raws(state.y@);
    let ghost tev = t_end.raw as int;
    let ghost dtv = dt.raw as int;
    let ghost full = sim_points(*cfg, y0, t0.raw as int, tev, dtv);
    let mut ws_opt = ws;
    let mut t = t0;
    let mut out: Vec<(Fix, Vec<Fix>)> = Vec::new();
    out.push((t, copy_fix_vec(&state.y)));
    proof {
        assert(traj_vals(out@).drop_last() =~= Seq::<(int, Seq<int>)>::empty());
        assert(Seq::<(int, Seq<int>)>::empty() + sim_points(*cfg, raws(state.y@), t.raw as int, tev, dtv)
            =~= sim_points(*cfg, raws(state.y@), t.raw as int, tev, dtv));
    }
    while t.raw < t_end.raw
        invariant
            t.wf(),
            state.y@.len() == cfg.state_size_spec(),
            all_wf(raws(state.y@)),
            crate::ode::OdeRhs::scratch_ok(cfg, *sc),
            out.len() >= 1,
            traj_vals(out@).last() == (t.raw as int, raws(state.y@)),
            traj_vals(out@).drop_last() + sim_points(*cfg, raws(state.y@), t.raw as int, tev, dtv)
                == full,
        decreases
                (if t.raw < t_end.raw {
                    t_end.raw - t.raw
                } else {
                    0
                }),
    {
        let ghost y_pre = raws(state.y@);
        let ghost t_pre = t.raw as int;
        match &mut ws_opt {
            Some(w) => {
                crate::ode::rk4_step_ws(cfg, &mut state.y, t, dt, w, sc);
            },
            None => {
                crate::ode::rk4_step(cfg, &mut state.y, t, dt);
            },
        }
        t = t.qadd(dt);
        out.push((t, copy_fix_vec(&state.y)));
        proof {
            let ghost prev = out@.drop_last();
            assert(traj_vals(out@).drop_last() =~= traj_vals(prev));
            assert(traj_vals(prev) =~= traj_vals(prev).drop_last().push(
                (t_pre, y_pre),
            ));
            assert(traj_vals(out@).last() == (t.raw as int, raws(state.y@)));
            assert(sim_points(*cfg, y_pre, t_pre, tev, dtv) =~= seq![(t_pre, y_pre)] + sim_points(
                *cfg,
                raws(state.y@),
                t.raw as int,
                tev,
                dtv,
            ));
            assert(traj_vals(prev).drop_last().push((t_pre, y_pre)) + sim_points(
                *cfg,
                raws(state.y@),
                t.raw as int,
                tev,
                dtv,
            ) =~= traj_vals(prev).drop_last() + (seq![(t_pre, y_pre)] + sim_points(
                *cfg,
                raws(state.y@),
                t.raw as int,
                tev,
                dtv,
            )));
        }
    }
    proof {
        assert(sim_points(*cfg, raws(state.y@), t.raw as int, tev, dtv) =~= seq![
            (t.raw as int, raws(state.y@)),
        ]);
        assert(traj_vals(out@) =~= traj_vals(out@).drop_last().push(traj_vals(out@).last()));
        assert(traj_vals(out@).drop_last() + seq![(t.raw as int, raws(state.y@))] =~= traj_vals(
            out@,
        ));
    }
    out
}

} // verus!
