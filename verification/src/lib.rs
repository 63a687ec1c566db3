//! FishNet radio modem: framing, frame parsing, symbol tracking and the
//! small pieces of text handling around them, with their contracts.

pub mod prng;
pub mod config;
pub mod text;
pub mod mac;
pub mod frame;
pub mod types;
pub mod parser;
pub mod laws;
pub mod bins;
pub mod tracker;
pub mod demod;
pub mod debug;
pub mod samples;
