//! The decisions of a key-value store that keeps its data in etcd: which requests its
//! operations make, what the replies mean, and when to go on, to try again or to stop.
//!
//! Nothing here talks to a server. An operation of one step is a function that makes a request
//! and a function that takes the reply. An operation of many steps is a value that says what
//! it wants done next and is told what came of it.

pub mod config;
pub mod connect;
pub mod error;
pub mod etcd;
pub mod keepalive;
pub mod laws;
pub mod listing;
pub mod lock;
pub mod outside;
pub mod request;
pub mod store;
pub mod text;
pub mod watch;
