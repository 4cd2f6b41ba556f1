//! A replicated key-value store's per-replica logic: the command model, the
//! state machine that consumes the committed log, snapshots and their byte
//! format, the waiter registry, reply construction and the clerk's leader
//! cache.
use vstd::prelude::*;

pub mod clerk;
pub mod codec;
pub mod command;
pub mod errors;
pub mod handler;
pub mod ids;
pub mod machine;
pub mod messages;
pub mod order;
pub mod snapshot;
pub mod table;
pub mod waiters;

verus! {

} // verus!
