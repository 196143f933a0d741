//! A minimal HTTP/1.1 server core.
//!
//! The crate holds the parts of a small server that can be reasoned about
//! without touching a socket: the wire codec, the request router with its
//! built-in handlers, the per-connection state machine, the admission
//! controller that bounds concurrency, and the acceptor's lifecycle.
//! Every function carries a contract over a mathematical model of its data.
//! The program that owns the sockets feeds events in and carries actions out.

pub mod admission;
pub mod codec;
pub mod compression;
pub mod config;
pub mod connection;
pub mod handlers;
pub mod headers;
pub mod message;
pub mod path;
pub mod readback;
pub mod routing;
pub mod server;
pub mod soundness;
pub mod text;

