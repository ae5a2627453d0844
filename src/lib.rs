//! Ingestion core for telemetry relayed from a packet-radio mesh network.
//!
//! - `wire`, `fields`: the protocol-buffer wire format and typed field access.
//! - `proto`: the mesh messages (envelope, packet, payload kinds), decoded.
//! - `store`: the tables, the duplicate classifier, the per-group
//!   "latest wins" node reconciler and the per-port payload handlers.
//! - `pipeline`: staging raw envelopes and processing them oldest first.
//! - `laws`: properties relating several calls.
//! - `dto`, `config`, `util`: records at the boundary, settings, helpers.

pub mod util;
pub mod wire;
pub mod fields;
pub mod proto;
pub mod dto;
pub mod store;
pub mod pipeline;
pub mod laws;
pub mod config;
