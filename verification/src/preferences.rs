//! Broker-wide preferences, set once at start-up and read from then on.
//!
//! The value is owned by whoever embeds the broker; the functions here set and
//! read it.

use vstd::prelude::*;

verus! {

/// The two switches of the broker.
#[derive(Debug, Clone, Copy, PartialEq, Eq, Structural)]
pub struct Config {
    /// Whether the regular queue is to be shuffled before it is offered.
    pub shuffle_queue: bool,
    /// Selects the comparison of the tier rule. Unset, a regular task is
    /// hidden from an agent only while a strictly higher tier is online for
    /// the task's capability. Set, an equal tier online hides it as well.
    pub allow_assigning_to_same_top_tier: bool,
}

impl Default for Config {
    fn default() -> (config: Self)
        ensures
            !config.shuffle_queue,
            !config.allow_assigning_to_same_top_tier,
    {
        Config { shuffle_queue: false, allow_assigning_to_same_top_tier: false }
    }
}

/// Sets both switches.
pub fn init_config(config: &mut Config, shuffle_queue: bool, allow_assigning_to_same_top_tier: bool)
    ensures
        final(config).shuffle_queue == shuffle_queue,
        final(config).allow_assigning_to_same_top_tier == allow_assigning_to_same_top_tier,
{
    config.shuffle_queue = shuffle_queue;
    config.allow_assigning_to_same_top_tier = allow_assigning_to_same_top_tier;
}

/// A copy of the preferences.
pub fn get_config(config: &Config) -> (copy: Config)
    ensures
        copy == *config,
{
    *config
}

/// The first switch.
pub fn shuffle_queue(config: &Config) -> (on: bool)
    ensures
        on == config.shuffle_queue,
{
    config.shuffle_queue
}

/// The second switch.
pub fn allow_assigning_to_same_top_tier(config: &Config) -> (on: bool)
    ensures
        on == config.allow_assigning_to_same_top_tier,
{
    config.allow_assigning_to_same_top_tier
}

} // verus!
