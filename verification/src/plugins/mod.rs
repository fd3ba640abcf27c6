//! Plugins: packages, their installation and the records of them.

pub mod archive;
pub mod built_in;
pub mod discovery;
pub mod error;
pub mod install;
pub mod links;
pub mod manifest;
pub mod package;
pub mod records;
pub mod requests;
pub mod rollback;
pub mod schema;
pub mod start;
pub mod store;
pub mod systemd;
pub mod unit_file;
