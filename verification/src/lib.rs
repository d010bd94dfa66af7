//! Bookkeeping for a streaming estimator of the mean, variance and covariance
//! of paired samples, and an exact account of what the estimator computes.

mod arith;
pub mod count;
pub mod moments;
