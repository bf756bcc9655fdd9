//! A minimal task queue behind an HTTP/1.0-style interface.
//!
//! A client adds a task with a request whose path contains `add`; the task
//! is the raw query string of the request. A client takes the task that has
//! waited longest with a request whose path contains `get`. Tasks are held
//! in memory, in one bounded store, first in, first out.
//!
//! The library holds everything but the sockets and the threads:
//!
//! - [`line`] turns bytes into lines,
//! - [`request`], [`header`] and [`remote`] give lines and addresses their
//!   meaning,
//! - [`parser`] reads a request byte by byte,
//! - [`store`] is the task store,
//! - [`handler`] maps a request onto a store operation and a response,
//! - [`response`] writes a response out,
//! - [`connection`] leads one connection from its first byte to its close,
//! - [`text`] is the vocabulary in which the contracts of the others speak.
//!
//! A server reads bytes from a socket into a [`connection::Connection`],
//! locks the shared [`store::TaskStore`] when the connection asks to be
//! dispatched, and writes out what the connection hands it.

pub mod connection;
pub mod handler;
pub mod header;
pub mod line;
pub mod parser;
pub mod remote;
pub mod request;
pub mod response;
pub mod store;
pub mod text;
