//! SVG formatting plugin core: configuration resolution, input checks and
//! the plugin protocol's decisions, with their contracts.

pub mod channel;
pub mod config;
pub mod config_map;
pub mod configuration;
pub mod entries;
pub mod error;
pub mod formatter;
pub mod handler;
pub mod json;
pub mod messages;
pub mod process_loop;
pub mod text;
pub mod schema;
pub mod snapshot;
pub mod structure;
pub mod temporal;
