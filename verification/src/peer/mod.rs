//! The two-party mode: a sender forwards typed lines as requests, and a
//! receiver prints them and acknowledges them.

pub mod receiver;
pub mod sender;
