//! Processes seen by the observer.
pub mod tracker;
pub mod procfs;

pub use tracker::{ProcessRecord, ProcessTracker};
