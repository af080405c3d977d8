//! Core of a relay-based multiplayer position-sync system: the wire codec for
//! player state and the id-assignment handshake, the relay server's peer and
//! id bookkeeping, the client-side handshake and update handling, the registry
//! of last-known remote player states, and the skin-asset resolution cache.
//!
//! Network and graphics I/O live outside this crate; every function here works
//! on plain values and is verified against its contract.

pub mod codec;
pub mod registry;
pub mod relay;
pub mod client;
pub mod resolver;
