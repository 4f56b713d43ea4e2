//! The decisions of a relay that exposes HTTP services behind client tunnels.
//!
//! Clients open a control channel, prove that they know the token of a tunnel
//! and then lend data channels to it. Visitors send plain HTTP requests, which
//! are routed to a tunnel by their `Host` header.

pub mod config;
pub mod control;
pub mod data_channel;
pub mod host;
pub mod http;
pub mod ingress;
pub mod maps;
pub mod protocol;
pub mod registry;
pub mod server;
pub mod text;
pub mod token;
