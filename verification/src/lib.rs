//! Gaussian-process regression over a fixed-point scalar domain.
//!
//! The library fits a Gaussian-process model to one-dimensional
//! observations and predicts a posterior mean and uncertainty band at new
//! query points.  All arithmetic is carried out on fixed-point scalars
//! (`i64` counts of `fixed::SCALE` units per 1.0), so every step of the
//! pipeline — kernel evaluation, gram-matrix construction, the grid-search
//! hyperparameter optimizer, and the linear solves behind the predictor —
//! is verified executable code with an exact contract.

pub mod fixed;
pub mod linalg;
pub mod kernel_defs;
pub mod gaussian_process;
