//! Stages and the registry that builds them by name.
//!
//! A chain is described as data, so that an ambiguous signal is handled by
//! changing the chain and not the program. What stands here is what each stage
//! is told and what it makes of it; the arithmetic on samples is the caller's.

pub mod bank;
pub mod banks;
pub mod chain;
pub mod decode_nodes;
pub mod dsp_nodes;
pub mod laws;
pub mod reports;
pub mod stage;
pub mod words;
pub mod workings;

pub use bank::{ChannelBank, ChannelEvent, Gating};
pub use chain::{build_chain, ook_chain, registry, Graph, NodeSpec};
pub use decode_nodes::{ProtocolDecodeNode, PulseDetectNode};
pub use dsp_nodes::{
    DecimateNode, DeemphasisNode, EnvelopeNode, FmDemodNode, MixerNode, RealDecimateNode,
};
pub use stage::{Factory, Stage};
