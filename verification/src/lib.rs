//! An interactive terminal dashboard for inspecting and controlling
//! containers managed by an external container-runtime CLI tool.
//!
//! The crate holds the verified core: decoding the tool's line-delimited
//! records, the application state with its invariants, and the control-loop
//! dispatch from key events to state transitions and external actions.
//! Terminal setup, rendering and subprocess plumbing live outside the
//! library.

pub mod decode;
pub mod record;
pub mod state;
