//! The optional configuration: auto-save defaults and the environment
//! allow-list. A missing or invalid file means the defaults.
use vstd::prelude::*;

verus! {

/// The whole configuration.
#[derive(Debug)]
pub struct Config {
    pub autosave: AutosaveConfig,
    pub environment: EnvironmentConfig,
}

/// `[autosave]`: whether `sess start` turns auto-save on, and how often it saves.
#[derive(Debug, Clone, Copy, PartialEq, Eq)]
pub struct AutosaveConfig {
    pub enabled: bool,
    /// Seconds between saves.
    pub interval: u64,
}

/// `[environment]`: the variable names allowed to be persisted on save.
#[derive(Debug)]
pub struct EnvironmentConfig {
    pub persist: Vec<String>,
}

/// The default auto-save interval, in seconds.
pub fn default_interval() -> (s: u64)
    ensures
        s == 30,
{
    30
}

impl Default for AutosaveConfig {
    /// Auto-save off, every 30 seconds.
    fn default() -> (c: Self)
        ensures
            c.enabled == false,
            c.interval == 30,
    {
        AutosaveConfig { enabled: false, interval: default_interval() }
    }
}

impl Default for EnvironmentConfig {
    /// Nothing is persisted.
    fn default() -> (c: Self)
        ensures
            c.persist@.len() == 0,
    {
        EnvironmentConfig { persist: Vec::new() }
    }
}

impl Default for Config {
    /// Auto-save off every 30 seconds, nothing persisted.
    fn default() -> (c: Self)
        ensures
            c.autosave.enabled == false,
            c.autosave.interval == 30,
            c.environment.persist@.len() == 0,
    {
        Config { autosave: AutosaveConfig::default(), environment: EnvironmentConfig::default() }
    }
}

/// Whether `sess start` turns auto-save on: `--no-auto-save` always wins;
/// otherwise `--auto-save` does; otherwise the configured default applies.
pub fn auto_save_on_start(auto_save: bool, no_auto_save: bool, config: &AutosaveConfig) -> (on:
    bool)
    ensures
        on == (!no_auto_save && (auto_save || config.enabled)),
{
    if no_auto_save {
        false
    } else if auto_save {
        true
    } else {
        config.enabled
    }
}

/// The auto-save interval: the one given on the command line, or the configured one.
pub fn effective_interval(given: Option<u64>, config: &AutosaveConfig) -> (s: u64)
    ensures
        s == match given {
            Some(v) => v,
            None => config.interval,
        },
{
    match given {
        Some(v) => v,
        None => config.interval,
    }
}

} // verus!
