//! The decision-making core of a Minecraft reverse proxy.
//!
//! Sockets, files, clocks and threads live outside this crate. What is here
//! takes plain values in and hands plain values back: the wire format, the
//! rate limits, the trust levels of client addresses, the configuration rules
//! and the per-connection state machines.

pub mod addr;
pub mod config_loader;
pub mod forwarding;
pub mod haproxy;
pub mod limbo;
pub mod metrics;
pub mod pinger;
pub mod proxy;
pub mod session;
pub mod status;
pub mod tables;
pub mod target;
pub mod text;
pub mod update_service;
pub mod window;
pub mod wire;
