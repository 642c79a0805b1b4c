//! Codec, rolling-hash session and serial pump decisions of a gateway that
//! bridges one serial device to many network clients.

pub mod auth;
pub mod checksum;
pub mod client;
pub mod config;
pub mod monitor;
pub mod protocol;
pub mod reader;
pub mod security;
pub mod text;
pub mod writer;
