//! Management of an ordered, prefix-named group of compositor workspaces
//! ("dynamic workspaces") on a single monitor.
//!
//! The crate holds the pure logic only: the name codec, the ordering and
//! filtering of workspace snapshots, the insertion planner that keeps the
//! group's indices dense, and the relative locator. Talking to the
//! compositor is left to the surrounding program, which feeds snapshots in
//! and carries the computed plan out.

pub mod codec;
pub mod error;
pub mod locator;
pub mod monitor;
pub mod order;
pub mod plan;
pub mod workspace;
