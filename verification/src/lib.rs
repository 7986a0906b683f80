//! The core of a minimal HTTP/1.1 server: the request parser, the routing
//! table with its fallback handler, the response serialiser, the handling
//! of one connection and the bookkeeping of a fixed-size worker pool.
//!
//! Everything here computes on plain values. Sockets and threads live with
//! the caller: for each connection it does what a
//! [`connection::Connection`] tells it to do, and its workers ask a
//! [`threadpool::WorkerPool`] which job to run next.

pub mod connection;
pub mod handler;
pub mod request;
pub mod response;
pub mod round_trip;
pub mod server;
pub mod text;
pub mod threadpool;
pub mod utf8;
