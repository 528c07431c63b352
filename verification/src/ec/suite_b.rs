//! The NIST prime curves.

pub mod ops;
