//! Renders per-core CPU utilization onto a tiled LED panel.
//!
//! The library holds the panel's tile layout, the wire format of usage
//! snapshots and the ingestion of a byte stream into snapshots, the per-frame
//! dithering compositor, and the refresh-rate counter arithmetic.

pub mod geometry;
pub mod snapshot;
pub mod wire;
pub mod ingest;
pub mod compose;
pub mod refresh;
