//! Authoritative simulation core of a small multiplayer action game:
//! a broad-phase 2D collision engine with layer/mask filtering, a binary
//! wire protocol, and the server/client state machines that keep a shared
//! world (positions, health, kills, respawns) consistent across peers.
//!
//! All world coordinates are fixed-point integers in milli-units; facing
//! directions are fixed-point vectors. The unverified shell around this
//! library owns the sockets and the rendering and exchanges plain values
//! with it.

pub mod client;
pub mod collision;
pub mod mapa;
pub mod network;
pub mod player;
pub mod protocol;
