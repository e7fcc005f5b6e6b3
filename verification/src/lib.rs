//! A local reMarkable sync server: the logic of its notifications, its cloud storage and read-later
//! integrations, its device login and the older sync protocols.

pub mod clock;
pub mod codec;
pub mod config;
pub mod error;
pub mod integrations;
pub mod json_grammar;
pub mod json_scan;
pub mod mdm;
pub mod mqtt;
pub mod mqtt_ws;
pub mod notifications;
pub mod oauth;
pub mod passcode;
pub mod protocol;
pub mod rate;
pub mod readlater;
pub mod readlater_api;
pub mod table;
pub mod text;

pub use config::{init_calendar_manager, ServerConfig};
