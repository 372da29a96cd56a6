//! Command-line choices of the relay binary.
use vstd::prelude::*;

verus! {

/// Log output format: human-readable lines or newline-delimited JSON.
#[derive(Debug, Clone, Copy, PartialEq, Eq, Structural)]
pub enum LogFormat {
    Text,
    Json,
}

impl Default for LogFormat {
    fn default() -> (r: LogFormat)
        ensures
            r == LogFormat::Text,
    {
        LogFormat::Text
    }
}

/// The configuration path used when none is given on the command line.
pub open spec fn default_config_path() -> Seq<char> {
    "nexthop.toml"@
}

/// How the binary runs, as decided from its command line.
#[derive(Debug, Clone, PartialEq, Eq)]
pub enum RunMode {
    /// No window: load `config_path`, then relay until stopped.
    Headless { config_path: String },
    /// The desktop application. `explicit_config` is the path given on the
    /// command line, or `None` where the default was left in place and the
    /// application's data directory decides.
    Gui { explicit_config: Option<String> },
}

/// Chooses between headless and desktop operation: `--no-gui` runs
/// headless on the given path; otherwise a path other than the default is
/// passed to the desktop application as an explicit choice.
pub fn run(no_gui: bool, config: String) -> (r: RunMode)
    ensures
        match r {
            RunMode::Headless { config_path } => no_gui && config_path@ == config@,
            RunMode::Gui { explicit_config } => !no_gui && match explicit_config {
                Some(p) => p@ == config@ && config@ != default_config_path(),
                None => config@ == default_config_path(),
            },
        },
{
    if no_gui {
        return RunMode::Headless { config_path: config };
    }
    let default_path = String::from_str("nexthop.toml");
    if config == default_path {
        RunMode::Gui { explicit_config: None }
    } else {
        RunMode::Gui { explicit_config: Some(config) }
    }
}

} // verus!
