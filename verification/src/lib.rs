//! Boundary layer between a host application and a retained-mode scene
//! renderer.
//!
//! The library covers the four protocols that make that boundary safe:
//! incremental display-list construction with a finalize-to-bytes /
//! consume-from-bytes round trip, ownership transfer of heap byte buffers,
//! a request/resolve pipeline for rasterizing vector ("blob") images, and a
//! lock/unlock/release protocol for caller-owned image resources together
//! with a drain-once queue of completed-frame epochs per scene.

pub mod ids;
pub mod geometry;
pub mod buffer;
pub mod display;
pub mod codec;
pub mod builder;
pub mod table;
pub mod blob;
pub mod external;
pub mod api;
