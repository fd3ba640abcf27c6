//! Pieces of HTTP requests and answers.
pub mod body;
pub mod host;
pub mod proxy;
pub mod upgrade;
pub mod upload;
