//! Authoritative session server core for a small multiplayer world.
//!
//! Clients send short ASCII datagrams (log in, start moving in a direction,
//! stop); the server keeps per-player state, reapplies standing move intents
//! on every tick, and periodically broadcasts a per-recipient filtered
//! snapshot of the world. This crate holds the verified core of that
//! pipeline: the wire codec, the player store, the command processor, the
//! session registry and the broadcaster. Socket and backing-store I/O live
//! outside it.

pub mod broadcast;
pub mod clock;
pub mod game;
pub mod json;
pub mod laws;
pub mod processor;
pub mod registry;
pub mod store;
pub mod text;
pub mod wire;
