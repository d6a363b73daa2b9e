//! A pool of long-lived connections that are kept alive by trickling small
//! payloads to them, together with the worker pool, the outbound queue and
//! the payload generator that the pool is built from.
//!
//! The library decides; it does not touch a socket or start a thread. A
//! task pool hands jobs to its workers and tells them when to leave, a
//! connection is told what to do next when it reports what has happened to
//! it, and a writer cuts what it is given into chunks for the connections.
//! Whoever runs the pool carries the decisions out and reports back:
//!
//! - [`queue`]: the first-in, first-out queue that the pools are built on;
//! - [`thread`]: the task pool, its workers and its channel, and
//!   [`thread_laws`]: what its protocol guarantees under every schedule;
//! - [`connection`]: the life of one connection, step by step;
//! - [`sock`]: the connection pool, and [`sock_laws`]: what it guarantees
//!   under every schedule;
//! - [`chunk`] and [`writer`]: the socket writer and its chunks;
//! - [`buffer`]: the writer's buffer;
//! - [`generator`]: the source of random payloads;
//! - [`error`]: the failures of a pool.
//!
//! Every function is verified against its contract, with three exceptions
//! whose contracts are taken on trust: the calls into the write buffer, the
//! call that draws random bytes, and the call that counts the processors.

pub mod buffer;
pub mod chunk;
pub mod connection;
pub mod error;
pub mod generator;
pub mod queue;
pub mod sock;
pub mod sock_laws;
pub mod thread;
pub mod thread_laws;
pub mod writer;
