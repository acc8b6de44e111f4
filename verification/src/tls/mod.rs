//! TLS sessions observed through userspace library probes.
pub mod openssl;
pub mod tracker;

pub use tracker::{TlsLibrary, TlsSession, TlsTracker};
