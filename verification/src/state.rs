//! Everything the broker holds while it runs.

use vstd::prelude::*;

use crate::config::AppConfig;
use crate::db::app_storage::AppStorage;
use crate::mq::urgent::UrgentTaskStore;
use crate::preferences::Config;

verus! {

/// The broker's state: its registries, its settings, the store of urgent
/// tasks and its preferences.
pub struct AppState {
    pub storage: AppStorage,
    pub config: AppConfig,
    pub urgent: UrgentTaskStore,
    pub preferences: Config,
}

impl AppState {
    /// The invariant of the whole: the invariants of the registries and of
    /// the store of urgent tasks.
    pub open spec fn wf(&self) -> bool {
        &&& self.storage.wf()
        &&& self.urgent.wf()
    }

    /// A broker with the given registries and settings, no urgent task, and
    /// both preferences unset.
    pub fn new(storage: AppStorage, config: AppConfig) -> (state: Self)
        requires
            storage.wf(),
        ensures
            state.wf(),
            state.storage == storage,
            state.config == config,
            state.urgent.entries().len() == 0,
            !state.preferences.shuffle_queue,
            !state.preferences.allow_assigning_to_same_top_tier,
    {
        AppState {
            storage,
            config,
            urgent: UrgentTaskStore::new(),
            preferences: Config::default(),
        }
    }
}

} // verus!
