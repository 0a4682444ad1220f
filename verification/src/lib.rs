//! An event-sourced chat core for one conversation entity: append-only event
//! streams with per-member visibility windows, a membership roster with a
//! gated admission protocol, delta synchronization with tombstones, and
//! metrics rollups.

pub mod access_gate;
pub mod direct_chats;
pub mod event_log;
pub mod group;
pub mod ids;
pub mod joined_groups;
pub mod membership;
pub mod metrics;
pub mod timestamped;
