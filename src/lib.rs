//! Verified core of a point-to-point encrypted audio relay: channel mixing,
//! frame encryption, jitter buffering and the per-packet transport decisions.

pub mod mixer;
pub mod jitter;
pub mod cipher;
pub mod config;
pub mod transport;
pub mod volume;
