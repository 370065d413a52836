//! A fan-out log tailer library: verified payload sanitization, connection
//! target construction, per-connection session lifecycle, keepalive
//! scheduling, and fan-out supervision over a list of discovered endpoints.

pub mod sanitize;
pub mod session;
pub mod supervisor;
pub mod target;
pub mod ticker;
