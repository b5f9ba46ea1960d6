//! The verified core of a remote zstd offload service.
//!
//! A game server hands its zstd work to a remote server: it sends requests over
//! tag-matched messages, and the remote server keeps one streaming context per
//! game connection. This library holds what the two sides decide and compute;
//! the transport, the sockets and the C ABI are around it.
//!
//! - [`protocol`]: the wire format, and the tags that route messages
//! - [`codec`], [`zstream`]: the zstd contexts
//! - [`worker`], [`answer`], [`turns`]: the server
//! - [`metrics`], [`exposition`], [`catalogue`], [`http`]: what the server counts
//!   and serves
//! - [`config`]: the server's command line
//! - [`client`]: the client
//! - [`exchange`]: what holds between client and server
//! - [`transport`]: decisions of the transport layer
//! - [`text`]: numbers and searches in texts

pub mod answer;
pub mod catalogue;
pub mod client;
pub mod codec;
pub mod config;
pub mod exchange;
pub mod exposition;
pub mod http;
pub mod metrics;
pub mod protocol;
pub mod text;
pub mod transport;
pub mod turns;
pub mod worker;
pub mod zstream;
