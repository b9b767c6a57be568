//! The prefix operators, one module each.

pub mod bit_not;
pub mod neg;
pub mod not;
