//! Calibration of the baseline transmission scalar from a target basic
//! reproduction number.

use vstd::prelude::*;

use crate::fixed::{q_div, q_max, q_mul, Fix};
use crate::linalg::{mat_raws, mat_wf, pi_spec, spectral_radius_power_iteration};

verus! {

/// Iteration budget handed to the spectral-radius estimator.
pub const CALIB_MAX_ITER: usize = 10000;

/// Convergence tolerance handed to the spectral-radius estimator: the
/// smallest positive step of the Q32.32 grid.
pub const CALIB_TOL_RAW: i128 = 1;

/// Smallest value the estimated spectral radius is floored to, so the
/// division below is defined even for a zero contact matrix: one raw step.
pub const CALIB_RHO_FLOOR_RAW: i128 = 1;

/// Compute the baseline transmission scalar `beta0` that realizes the target
/// reproduction number `r0` for the given contact matrix and mean
/// infectious-stage exit rate `gamma`: `beta0 = r0 * gamma / rho(contact)`,
/// with the spectral radius estimated by power iteration and floored to a
/// small positive value. The matrix must be square and non-empty.
pub fn beta0_from_r0(contact: &Vec<Vec<Fix>>, gamma: Fix, r0: Fix) -> (b: Fix)
    requires
        contact.len() > 0,
        mat_wf(mat_raws(contact@), contact.len() as int),
        gamma.wf(),
        r0.wf(),
    ensures
        b.raw == q_div(
            q_mul(r0.raw as int, gamma.raw as int),
            q_max(
                pi_spec(mat_raws(contact@), CALIB_MAX_ITER as nat, CALIB_TOL_RAW as int),
                CALIB_RHO_FLOOR_RAW as int,
            ),
        ),
        b.wf(),
{
    let rho = spectral_radius_power_iteration(contact, CALIB_MAX_ITER, Fix { raw: CALIB_TOL_RAW });
    let rho_floored = rho.qmax(Fix { raw: CALIB_RHO_FLOOR_RAW });
    r0.qmul(gamma).qdiv(rho_floored)
}

} // verus!
