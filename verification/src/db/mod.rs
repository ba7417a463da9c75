//! The broker's keyed record stores.

pub mod agent;
pub mod apikeys;
pub mod app_storage;
pub mod laws;
pub mod persistent_task_storage;
pub mod tree;
