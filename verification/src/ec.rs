//! Elliptic-curve arithmetic.

pub mod suite_b;
