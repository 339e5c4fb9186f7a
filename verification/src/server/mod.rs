//! The server side: load reports, the request queue, and echoes.

pub mod receiver;
