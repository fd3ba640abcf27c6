//! The logic of the Kaonic gateway.
#![allow(unused_imports)]

pub mod api;
pub mod atak;
pub mod command;
pub mod dashboard;
pub mod digest;
pub mod dto;
pub mod frames;
pub mod http;
pub mod mavlink;
pub mod order;
pub mod paths;
pub mod plugins;
pub mod radio;
pub mod radio_form;
pub mod radio_interface;
pub mod reticulum;
pub mod services;
pub mod settings;
pub mod settings_form;
pub mod settings_store;
pub mod startup;
pub mod system_metrics;
pub mod text;
pub mod text_set;
pub mod update;
pub mod utf8;
pub mod vpn;
