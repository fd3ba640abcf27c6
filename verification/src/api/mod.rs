//! What the HTTP interface of the gateway answers.
pub mod config;
pub mod error;
pub mod ping;
pub mod system;
pub mod vpn;
