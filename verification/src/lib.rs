//! Verified core of the Markitel helper: the rules that decide how the
//! MT5 bridge is configured, keyed and paired.

pub mod text;
pub mod ini_writer;
pub mod ea_writer;
pub mod unicode_case;
pub mod mt5_discovery;
pub mod api;
pub mod pairing;
pub mod mt5_launcher;
pub mod profile_writer;
pub mod config;
pub mod telemetry;
pub mod commands;
pub mod default_tpl_writer;
pub mod indicator_writer;
pub mod tray;
