//! Verified core of a networking layer for server-authoritative multiplayer games:
//! reassembly of fragmented messages, the fork's opt-in extension switches, and the
//! decisions taken by the link, prediction and replication-metrics subsystems.

pub mod fork;
pub mod packet;
pub mod platform;
pub mod fragment;
pub mod delta;
pub mod link;
pub mod prediction;
pub mod metrics;
