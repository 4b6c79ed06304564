//! Ordinary least squares linear regression over exact rational arithmetic.
//!
//! The estimator owns a coefficient vector and a fitted-state flag. `fit`
//! solves the normal equations (XᵗX)·w = Xᵗy by Gaussian elimination on
//! exact rationals; `predict` evaluates X·w on new data. All arithmetic is
//! checked: every result is reduced to lowest terms, and a value that even
//! in lowest terms no longer fits the machine representation is reported
//! as an error, never silently rounded.

pub mod rational;
pub mod matrix;
pub mod estimator;
