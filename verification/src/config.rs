//! Display configuration.

use vstd::prelude::*;

verus! {

/// Which of an output's modes is wanted.
#[derive(Clone, Copy, Debug, PartialEq, Eq, Structural)]
pub enum DisplayModePreference {
    /// The mode with the most pixels and the highest refresh rate.
    Auto,
    /// A mode of this size; with a refresh rate in mHz, the one that comes closest to it.
    Exact { width: u16, height: u16, refresh_mhz: Option<i32> },
}

impl Default for DisplayModePreference {
    fn default() -> (preference: DisplayModePreference)
        ensures
            preference == DisplayModePreference::Auto,
    {
        DisplayModePreference::Auto
    }
}

/// How outputs are configured when they are connected.
#[derive(Clone, Copy, Debug, PartialEq, Eq, Structural)]
pub struct DisplayConfig {
    pub default_mode: DisplayModePreference,
}

impl Default for DisplayConfig {
    fn default() -> (config: DisplayConfig)
        ensures
            config.default_mode == DisplayModePreference::Auto,
    {
        DisplayConfig { default_mode: DisplayModePreference::Auto }
    }
}

} // verus!
