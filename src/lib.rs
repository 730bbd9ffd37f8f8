//! Liveness scanning of a contiguous IPv4 range whose addresses differ only
//! in the last octet: address model, range validation and expansion, and the
//! fan-in step that turns per-address probe outcomes into the set of live hosts.

pub mod address;
pub mod range;
pub mod scan;
