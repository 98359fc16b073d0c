//! The network core shared by a multiplayer game's client and server: a
//! length-prefixed, tagged binary packet protocol, a frame assembler that
//! reassembles frames out of arbitrarily chunked byte streams, and the
//! per-connection client state and registry that a readiness-driven server
//! loop drives.
pub mod assembler;
pub mod client;
pub mod packet;
pub mod registry;
