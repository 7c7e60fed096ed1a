//! Connection-multiplexing transport core for a relay-tunnelled
//! peer-to-peer overlay: one physical relay connection is fanned out into
//! independent logical sockets, one per remote peer.
//!
//! The crate holds the state and the decisions of that layer — the address
//! table, the framing of the binary channel, the control commands of the
//! text channel, and the lifecycle of the per-peer sockets.  The physical
//! transport itself (an async websocket or a test mock) and the loops that
//! pump it live outside, and drive this core through its step functions.

pub mod commands;
pub mod frames;
pub mod laws;
pub mod model;
pub mod queues;
pub mod socket;
pub mod ws_socket;
