//! A UDP request balancer: clients poll a set of servers for their load,
//! send each request to the least loaded one and keep per-server statistics;
//! servers report their load, queue requests and echo them back.
//!
//! This crate holds the decisions and data of both sides; the sockets,
//! threads and files live with the caller.

pub mod client;
pub mod config;
pub mod laws;
pub mod peer;
pub mod server;
pub mod text;
pub mod wire;
