//! Encoding of structured log records into the journal native protocol.
//!
//! A record is an ordered list of named fields. Each name is mangled into a
//! legal journal field name, each value is framed either on a single line or
//! with a length prefix, and the fields of one record together form one
//! datagram.

pub mod config;
pub mod decimal;
pub mod frame;
pub mod name;
pub mod record;
pub mod transport;
pub mod value;
pub mod wire;
