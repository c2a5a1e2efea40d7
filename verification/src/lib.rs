//! Authoritative simulation core of a real-time multiplayer arena game.
//!
//! The crate owns the game entities, advances the world at a fixed rate,
//! consumes buffered per-connection inputs, resolves simple physics and
//! boundary bounces, and prepares the world state that is pushed to each
//! connected client.  The wire transport, message serialization and process
//! configuration are external collaborators: they hand the core plain values
//! (connection ids, input messages, elapsed milliseconds) and take plain
//! values back (world snapshots, despawned ids, the time to sleep).

pub mod collision;
pub mod game;
pub mod mailbox;
pub mod world;
pub mod model;
pub mod system;
pub mod util;
