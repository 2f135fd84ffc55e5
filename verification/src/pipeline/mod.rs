//! The signal flow graph as data: what its ports carry, what its stages can be
//! told, and how stages are looked up by name.

pub mod carrying;
pub mod event;
pub mod node;
pub mod param;
pub mod port;
pub mod registry;
pub mod settings;

pub use event::{Decoded, Event};
pub use node::{NodeCtx, PortSpec};
pub use param::{Param, ParamValue};
pub use port::{PortKind, StreamSpec, Tag, TagValue};
pub use registry::{Registry, StageDesc, StageFactory};
pub use settings::{Settings, SettingsExt};
