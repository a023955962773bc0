//! Verified logic behind system-audio capture: reading `pactl` sink listings,
//! choosing the monitor source to record, listing audio devices and chunking
//! sample streams.

pub mod chunker;
pub mod devices;
pub mod error;
pub mod monitor;
pub mod pactl;
pub mod text;
