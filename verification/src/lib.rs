//! TraceLens: process-aware network observation, verified core logic.
pub mod text;
pub mod scan;
pub mod events;
pub mod capture;
pub mod config;
pub mod table;
pub mod keyed;
pub mod observation;
pub mod http;
pub mod dns;
pub mod network;
pub mod process;
pub mod tls;
pub mod timeline;
pub mod bus;
pub mod ingress;
pub mod detection;
pub mod runtime;
pub mod storage;
pub mod graph;
pub mod intake;
pub mod sessions;
pub mod selection;
pub mod sql;
pub mod api;
