//! Age-structured SEIRS epidemic engine on a saturating fixed-point scalar.
//!
//! The crate provides the deterministic simulation core: a Q32.32 fixed-point
//! number type, a spectral-radius estimator, a fixed-step fourth-order
//! Runge-Kutta integrator (allocating and workspace-reusing forms), the SEIRS
//! compartment model with Erlang-staged exposed/infectious periods, and the
//! calibration of a baseline transmission rate from a target reproduction
//! number.

pub mod calibration;
pub mod fixed;
pub mod linalg;
pub mod ode;
pub mod seirs;
pub mod util;

pub use calibration::beta0_from_r0;
pub use fixed::Fix;
pub use linalg::spectral_radius_power_iteration;
pub use ode::{rk4_step, rk4_step_ws, Rk4Workspace};
pub use seirs::{ConfigError, SeirsConfig, SeirsModel, SeirsState};
pub use util::{chronoish_now_millis, redact_conn_str};
