//! Network-to-overlay comment bridge: decoding, encoding and dispatch rules
//! for scrolling on-screen comments, with the string pipeline fully verified.

pub mod config;
pub mod dispatch;
pub mod ingest;
pub mod laws;
pub mod placement;
pub mod schema;
pub mod text;
