//! A coretime broker: a deterministic state machine that sells, subdivides,
//! reassigns and retires time-sliced shares of a fixed pool of execution
//! cores.
//!
//! Each core is divided along two axes: time (timeslices of a fixed number of
//! relay blocks) and an 80-bit interlace mask. Shares are traded as regions,
//! assigned to tasks, or pooled into an instantaneous demand market. A
//! rotating sale calendar continuously offers the next period's coretime.
//!
//! The broker is purely functional over its inputs per block: every operation
//! is a function of (state, input) to (state, events, relay instructions).
//! The hosting runtime — origin authorization, balance transfers, storage
//! persistence and the relay channel — stays outside; it hands the broker
//! plain values (the caller's account, its free balance, the current relay
//! block) and carries out the returned instructions.

pub mod broker;
pub mod laws;
pub mod mask;
pub mod pool;
pub mod pricing;
pub mod region;
pub mod sale;
pub mod schedule;
pub mod store;
pub mod tick;
pub mod types;

pub use broker::Broker;
pub use mask::CoreMask;
