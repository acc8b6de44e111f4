//! Connections seen per socket, merged across kernel and userspace reports.
pub mod tracker;

pub use tracker::{ConnectionRecord, ConnectionTracker};
