//! A relay broker for one privileged server peer and many client peers.
//!
//! Peers dial out to the broker; the broker re-frames and forwards their
//! binary messages by role. This crate holds the broker's rules: the wire
//! codec, the allocator of transient session identifiers, the registry of
//! live sessions, and the decisions taken for every frame and every
//! connection event. Sockets, timers and task scheduling belong to the
//! embedding program.

pub mod channel;
pub mod codec;
pub mod connection;
pub mod index;
pub mod listener;
pub mod relay;
pub mod session;
pub mod states;
