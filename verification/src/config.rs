//! The configuration that the gateway is started with.

use vstd::prelude::*;

verus! {

/// Keys and line speed, as they were loaded before the core starts.
#[derive(Debug)]
pub struct AppConfig {
    /// The key that seeds the nonce of a handshake.
    pub handshake_key: String,
    /// The key that seeds the hashes of a session.
    pub secret_key: String,
    /// The speed of the serial line.
    pub baud_rate: u32,
}

/// The seconds to wait after the device is connected and before the first
/// handshake, so that the device can finish its start.
pub const HANDSHAKE_DELAY_SECS: u64 = 3;

/// The port that the gateway listens on for clients.
pub const TCP_PORT: u16 = 8080;

/// How many entries the broadcast topic and the command queue hold.
pub const CHANNEL_CAPACITY: usize = 16;

/// How many bytes one read from the device asks for.
pub const READ_CHUNK: usize = 64;

} // verus!
