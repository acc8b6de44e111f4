//! DNS answers remembered with their TTL, for reverse lookups of connection addresses.
pub mod cache;
pub mod tracker;

pub use cache::DnsCache;
pub use tracker::DnsTracker;
