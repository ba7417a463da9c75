//! Capability-routed task broker: the dispatch core.
//!
//! Clients submit tasks that name a capability; agents advertise capabilities
//! and a tier, poll for work and report results. Urgent tasks live in an
//! in-memory, insertion-ordered store and are answered while the submitter
//! waits; regular tasks sit in a keyed queue until an agent of a sufficient
//! tier picks them up.
//!
//! Everything here works on values held in memory. Transport, token handling
//! and writing records to disk belong to the embedding application, which
//! receives from each operation the records that changed.

pub mod api;
pub mod clock;
pub mod config;
pub mod db;
pub mod error;
pub mod middleware;
pub mod models;
pub mod mq;
pub mod preferences;
pub mod schema;
pub mod state;
pub mod utils;
