//! Control logic of a wideband software-defined radio receiver.

pub mod common;
pub mod decode;
pub mod dsp;
pub mod fixed;
pub mod front;
pub mod gain;
pub mod nodes;
pub mod pipeline;
pub mod sort;
pub mod text;
