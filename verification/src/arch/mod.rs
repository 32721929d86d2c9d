//! Dot-product kernels.

pub mod generic;
pub mod reference;
pub mod sve;
pub mod sve2;

pub use generic::{dot_bool, dot_u16};
