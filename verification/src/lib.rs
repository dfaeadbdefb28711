//! Polynomial regression over exact rational arithmetic.
//!
//! The library fits low-degree polynomial models to two-dimensional
//! datasets by ordinary least squares and prepares the series and the
//! legend text that a chart of the fit needs.  All numbers are exact
//! rationals, so every result is pinned down exactly by its contract.

pub mod config;
pub mod error;
pub mod fracs;
pub mod laws;
pub mod legend;
pub mod rational;
pub mod regression;
pub mod solve;
