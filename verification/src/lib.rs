//! Flight-operations records behind a small service core.
//!
//! The library keeps planes, airports and flights in a datastore with
//! soft deletion, reconciles an append-only log of flight lifecycle
//! events (cancellation, delay, gate assignment) into one computed
//! current-state view, applies partial updates through an explicit
//! field allow-list, and models the decisions of a best-effort change
//! notifier.  Every function here carries a contract; transport and
//! broker plumbing live outside the library.

pub mod airports;
pub mod config;
pub mod errors;
pub mod fieldmask;
pub mod flights;
pub mod ids;
pub mod notifier;
pub mod planes;
pub mod projection;
pub mod store;
pub mod timestamp;
