//! Controller core for a fleet of networked lighting fixtures driven over an
//! Art-Net-style UDP protocol: a wire codec for the Poll / PollReply / Output
//! commands, a device registry with liveness timeouts, an animation store,
//! and a fixed-tick render scheduler that honours each node's frame rate.
//!
//! All I/O (sockets, timers, the HTTP control surface, archive unpacking)
//! lives outside this crate; the library computes which datagrams to send
//! and how the node and animation state evolves.
pub mod animation_handler;
pub mod client;
pub mod codec;
pub mod config;
pub mod floorplan;
pub mod messages;
pub mod scheduler;
pub mod service;
pub mod upload;
