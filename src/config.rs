//! Settings that the relay endpoints are started with.

use vstd::prelude::*;

verus! {

/// Where the receiving endpoint listens and which device plays the audio.
#[derive(Debug)]
pub struct ServerConfig {
    pub bind_address: String,
    pub output_device: String,
}

/// The shared key, as hexadecimal text.
#[derive(Debug)]
pub struct EncryptionConfig {
    pub key: String,
}

} // verus!
