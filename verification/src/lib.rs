//! A multi-tenant, time-scheduled event broker library.
//!
//! Clients enroll users, authenticate, submit events carrying a scheduled
//! publication timestamp, and subscribe to a tenant-scoped push channel.
//! Events are persisted in an embedded ordered key-value store; a scheduler
//! publishes due events with a compare-and-swap and hands them to a fan-out
//! bus; each subscriber re-projects a deterministic tenant snapshot on every
//! nudge.

use vstd::prelude::*;

pub mod bytes;
pub mod codec;
pub mod laws;
pub mod session;
pub mod events;
pub mod identity;
pub mod ids;
pub mod projection;
pub mod records;
pub mod scheduler;
pub mod store;
pub mod types;

verus! {

} // verus!
