//! A small single-threaded asynchronous HTTP server runtime.
//!
//! The library holds the decisions of the server: when a request has been
//! fully received, which bytes of the response go out next, which task the
//! scheduler polls next, and which task a ready file descriptor wakes. The
//! program around it performs the socket and epoll calls and hands the
//! outcomes back.
pub mod blocking;
pub mod connection;
pub mod http;
pub mod listener;
pub mod pool;
pub mod reactor;
pub mod runtime;
pub mod select;

