//! Carrier pigeons for SSH connections.
pub mod bridge;
pub mod cli;
pub mod config;
pub mod identity;
pub mod protocol;
pub mod service;
pub mod ssh;
pub mod ssh_laws;
pub mod telemetry;
pub mod text;
pub mod text_laws;
pub mod tunnel;
