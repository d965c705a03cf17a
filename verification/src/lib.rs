//! Bifröst-Gate: monitoring and operations agent for StrongSwan/IPsec.
//!
//! The verified core: parsing of `swanctl` output, topology construction and
//! change detection, configuration rendering for connections, secrets and
//! certificates, and the decisions taken by the HTTP service and the CLI.
pub mod text;
pub mod models;
pub mod engine;
pub mod auth;
pub mod json;
pub mod types;
pub mod peers;
pub mod connections;
pub mod secrets;
pub mod i18n;
pub mod commands;
pub mod settings;
pub mod store;
pub mod control;
pub mod access;
pub mod response_codes;
pub mod pdf;
pub mod catalogue;
pub mod certificates;
pub mod cli;
pub mod logging;
pub mod resources;
pub mod listing;
pub mod laws;
