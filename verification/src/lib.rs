//! A newline-delimited text protocol server library.
//!
//! The library has three layers: a framing codec that turns a raw byte
//! buffer into UTF-8 text frames and back ([`codec::LineCodec`]), a
//! protocol binding that pairs the codec with a per-connection receive
//! buffer ([`server::LineProto`]), and a pluggable request handler
//! abstraction with an identity and a reversal implementation
//! ([`handler::Hello`], [`handler::Olleh`]).

pub mod buffer;
pub mod codec;
pub mod handler;
pub mod server;

pub use codec::LineCodec;
pub use codec::LineError;
pub use handler::Handler;
pub use handler::Hello;
pub use handler::Olleh;
pub use server::LineProto;
pub use server::LineTransport;
pub use server::ServeStatus;
pub use server::serve_available;
