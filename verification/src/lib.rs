//! A verified session engine for real-time cellular-automaton simulations.
//!
//! Each session owns one toroidal Game of Life grid and one lifecycle
//! state machine, takes commands through a FIFO queue, and exposes
//! internally consistent snapshots of its state.
//!
//! - [`gameoflife`]: the deterministic rule engine and the lifecycle state
//!   machine, with the full command semantics in `update_outcome`.
//! - [`actor`]: opaque session identifiers and the actor contract.
//! - [`actors`]: the session actor, one simulation behind an
//!   exclusive-access lock and an unbounded command queue.
//! - [`codec`]: the binary wire encoding of a snapshot, with its decoder.
//! - [`server`]: the server configuration and the connection handler's
//!   decision rule; the surrounding I/O loops live outside the library.

pub mod actor;
pub mod actors;
pub mod codec;
pub mod gameoflife;
pub mod server;
