//! The broker's request surface: what each endpoint does to the broker's
//! state and what it answers, once the caller is known and the request has
//! been read.

pub mod agent;
pub mod client;
pub mod mgmt;
