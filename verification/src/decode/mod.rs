//! From bits to reports.

pub mod bits;
pub mod families;
pub mod frames;
pub mod oregon;
pub mod protocol;
