//! Seesaw: an in-process coordination layer that separates facts (events)
//! from intent (commands).
//!
//! Machines observe events and decide on commands; a dispatcher routes each
//! command inline or onto a durable job queue; workers claim queued jobs
//! under a lease, and failed jobs are retried with exponential backoff until
//! they are dead-lettered.
//!
//! Every function in this crate is verified against its contract. The few
//! places where the crate relies on code it cannot see (the clock, random
//! identifiers, JSON values, shared handles) are collected in [`platform`].
//! Machines are supplied by the application: what is proved of them holds
//! for every machine that keeps the contract of [`machine::Machine`].

pub mod backoff;
pub mod bus;
pub mod command;
pub mod dispatch;
pub mod engine;
pub mod envelope;
pub mod error;
pub mod job;
pub mod laws;
pub mod machine;
pub mod order;
pub mod platform;
pub mod registry;
pub mod store;
pub mod table;
pub mod worker;
