//! Verified core of a cluster-monitoring dashboard backend for a
//! distributed publish/subscribe messaging platform.
//!
//! The crate holds the parts of the system with real concurrency, staleness
//! and resource-lifecycle concerns: the per-cluster metadata cache with its
//! staleness tracking, the coalescing refresh scheduler, the fail-open
//! coordination-service watcher, and the live-tailing session store.
//! HTTP routing, page rendering and the wire-level clients live in the
//! surrounding application, which hands this crate plain values.

pub mod assoc;
pub mod cache;
pub mod live_consumer;
pub mod metadata;
pub mod reassignment;
pub mod scheduler;
pub mod watcher;
