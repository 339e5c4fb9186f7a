//! The client side: choosing a server and keeping statistics.

pub mod poller;
pub mod sender;
