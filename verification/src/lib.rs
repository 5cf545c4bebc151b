//! Control-state logic of a PipeWire audio router: per-channel mix state,
//! translation lookup, status messages, input-channel workspace, node
//! property parsing and live-meter bookkeeping.

pub mod channel_state;
pub mod text;
pub mod labels;
pub mod node_props;
pub mod catalog;
pub mod i18n;
pub mod status;
pub mod workspace;
pub mod meters;
pub mod cli;
pub mod refresh;
