//! Client-side node logic for a simulated source-routed network: topology
//! discovery from flood traces, route selection, message fragmentation and
//! reassembly, and acknowledgement tracking.
pub mod codec;
pub mod database;
pub mod error;
pub mod graph;
pub mod ids;
pub mod packet;
pub mod router;
pub mod service;
