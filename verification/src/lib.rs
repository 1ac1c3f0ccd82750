//! Sleeping-server proxy core: the managed-server lifecycle state machine, its
//! availability monitor, the status-protocol codec with strict and lenient
//! decoding, and the process-signal controller with group-then-direct
//! fallback delivery.

pub mod config;
pub mod monitor;
pub mod os;
pub mod protocol;
pub mod server;
pub mod status;
pub mod text;
