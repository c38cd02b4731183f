//! Defaults for the settings that have one.

use vstd::prelude::*;

verus! {

/// Verbosity of the diagnostics the process emits, most verbose first.
#[derive(Clone, Copy, Debug, PartialEq, Eq, Structural)]
pub enum Level {
    Trace,
    Debug,
    Info,
    Warn,
    Error,
}

/// Diagnostics settings.
#[derive(Clone, Copy, Debug, PartialEq, Eq, Structural)]
pub struct Tracing {
    pub level: Level,
}

impl Tracing {
    /// The settings used when none are configured, for a build with or
    /// without debug assertions.
    pub fn for_build(debug_assertions: bool) -> (r: Tracing)
        ensures
            r.level == spec_default_log_level(debug_assertions),
    {
        Tracing { level: default_log_level(debug_assertions) }
    }
}

/// The level used when none is configured: `Debug` in builds with debug
/// assertions, `Warn` otherwise.
pub open spec fn spec_default_log_level(debug_assertions: bool) -> Level {
    if debug_assertions {
        Level::Debug
    } else {
        Level::Warn
    }
}

/// The level used when none is configured, for a build with or without
/// debug assertions.
#[verifier::when_used_as_spec(spec_default_log_level)]
pub fn default_log_level(debug_assertions: bool) -> (level: Level)
    ensures
        level == spec_default_log_level(debug_assertions),
{
    if debug_assertions {
        Level::Debug
    } else {
        Level::Warn
    }
}

/// The command prefix used when none is configured: a single question mark.
pub fn default_prefix() -> (prefix: String)
    ensures
        prefix@ == seq!['?'],
{
    proof {
        reveal_strlit("?");
    }
    let prefix = "?".to_owned();
    assert(prefix@ =~= seq!['?']);
    prefix
}

} // verus!
