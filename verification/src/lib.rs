//! Constant-time limb arithmetic and unbiased range sampling for
//! elliptic-curve scalars, with the curve operation tables built on them.

pub mod bit_pattern;
pub mod ct;
pub mod ec;
pub mod error;
pub mod limb;
pub mod limb_value;
pub mod rand;
pub mod sampling_lemmas;
