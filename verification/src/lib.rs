//! Collaborative document server core: wire codec, node and subscription
//! fabric, document store, room/session layer, filesystem reconciler,
//! process supervisor bookkeeping, and the upload/download write barrier.

pub mod b64;
pub mod crdt;
pub mod dir_sync;
pub mod document;
pub mod fs;
pub mod ids;
pub mod json;
pub mod node;
pub mod orchestrator;
pub mod protocol;
pub mod room;
pub mod stats;
pub mod status;
pub mod sync_state;
pub mod text;
