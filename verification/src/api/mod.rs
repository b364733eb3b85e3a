//! What the HTTP API decides: which requests it accepts, what its answers say
//! and what the background controller does next.
//!
//! The database, the machines and the network are the caller's; their answers
//! come in as plain values.
pub mod error;
pub mod health;
pub mod pool_controller;
pub mod pools;
pub mod prewarm;
pub mod rollouts;
