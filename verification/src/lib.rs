//! A single-producer / multi-consumer live line broadcaster, verified.
//!
//! Raw bytes from one producer are framed on a separator byte (or a length
//! cutoff), sequence-numbered, kept in a bounded history ring for late
//! joiners, and fanned out through a bounded hub to any number of
//! subscribers, each with its own read cursor and an explicit overload
//! policy (drop with lag reporting, or backpressure on the producer).

pub mod config;
pub mod record;
pub mod render;
pub mod framer;
pub mod history;
pub mod hub;
pub mod engine;
pub mod consumer;
pub mod shutdown;
