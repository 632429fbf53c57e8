//! Verified core of an embeddable ESMTP server.
//!
//! The crate models the wire conversation of an SMTP connection: command
//! parsing, reply rendering with enhanced status codes, the dot-stuffed
//! DATA body framing, chunked BDAT accounting, SASL authentication, and
//! the per-connection command state machine. Network I/O, TLS and the
//! application backend live outside; they drive the state machine through
//! the `Action` values it returns.

pub mod b64;
pub mod backend;
pub mod conn;
pub mod data;
pub mod parse;
pub mod reply;
pub mod sasl;
pub mod server;
pub mod text;
pub mod writer;
pub mod xtext;
