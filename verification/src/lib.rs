//! Uploading TLS certificates to a device over a multiplexed serial line, and reading and
//! writing its MQTT settings: framing, validation, the order of steps and the texts that
//! the user sees. Whoever owns the serial port performs the steps.

pub mod braces;
pub mod certs;
pub mod device;
pub mod json;
pub mod mqtt;
pub mod mux;
pub mod panel;
pub mod pieces;
pub mod report;
pub mod settings;
pub mod slip;
pub mod text;
pub mod upload;
