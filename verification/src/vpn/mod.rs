//! The VPN that runs over Reticulum links.

pub mod network;
pub mod packet;
pub mod peer;
pub mod routes;
pub mod runtime;
pub mod snapshot;
