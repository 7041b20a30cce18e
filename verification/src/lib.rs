//! Verified core of the Bini.js production server.

pub mod cache;
pub mod console;
pub mod env_file;
pub mod headers;
pub mod network;
pub mod node;
pub mod ports;
pub mod proxy;
pub mod reply;
pub mod settings;
pub mod startup;
pub mod text;
