//! Pulses, bursts and the frames of spectrum analysis.

pub mod bursts;
pub mod channelizer;
pub mod dc;
pub mod hearing;
pub mod level;
pub mod ook;
pub mod pulse;
pub mod rds;
pub mod slicing;
pub mod spectrum;
pub mod twolevel;
pub mod widths;

pub use channelizer::Channelizer;
pub use ook::{OokDetector, PulseConfig, PulseStats};
pub use pulse::{Package, Pulse};
pub use spectrum::Spectrum;
