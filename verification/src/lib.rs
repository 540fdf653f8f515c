//! A small real-time broadcast hub: a registry that tracks live connections,
//! groups them into named rooms, and fans text messages out to room members,
//! together with the per-connection session state machine that parses chat
//! commands and detects dead peers through a heartbeat.
pub mod registry;
pub mod session;
pub mod text;
