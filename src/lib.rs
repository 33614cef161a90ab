//! Real-time collaboration dispatch core: connection tracking, per-object
//! collaboration groups, the object-to-channel registry, and the control-stream
//! handle map, each modelled as a state machine with verified contracts.

pub mod billing;
pub mod channel;
pub mod connect_state;
pub mod control;
pub mod embedder;
pub mod error;
pub mod group;
pub mod indexer;
pub mod keymap;
pub mod manager;
pub mod router;
pub mod server;
pub mod user;
