//! Core logic of an agent that bridges a hierarchy of blockchain subnets.
//!
//! A parent subnet and its children never talk to each other directly; the
//! agent relays value transfers and checkpoint data between them.  This crate
//! holds the verified part of that agent: hierarchical subnet identifiers,
//! the pool of per-subnet connections, the checkpoint/nonce ordering rules of
//! the relay protocol, and the request dispatch checks that run before any
//! node is contacted.  Network I/O, configuration files and the asynchronous
//! node client live outside this crate and hand plain values in and out.

pub mod addr;
pub mod amount;
pub mod checkpoint;
pub mod config;
pub mod error;
pub mod handlers;
pub mod keyed;
pub mod pool;
pub mod subnet_id;
