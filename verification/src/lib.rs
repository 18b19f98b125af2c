//! Core of a WvW overview service: a priority-ordered, rate-limited call
//! scheduler, the pure reconciliation logic that keeps storage in step with
//! the remote listing, name normalization and grouping, and the snapshot
//! builder that assembles the published aggregate view.
//!
//! All I/O (the HTTP server, the remote API transport, and the on-disk
//! storage) lives outside this crate; the functions here take and return
//! plain values and carry contracts for everything they compute.

pub mod cache;
pub mod data;
pub mod normalize;
pub mod scheduler;
pub mod snapshot;
pub mod teams;
