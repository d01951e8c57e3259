//! The configuration: its model, its validation, and where it is found.
pub mod discovery;
pub mod rules;
pub mod schema;
pub mod validate;

pub use schema::{Config, OnFailureConfig, OutputConfig, Step, WatchConfig};
pub use validate::{ValidationErrors, validate};

use vstd::prelude::*;

verus! {

/// How the configuration file was located; decides the default watch root.
#[derive(Debug, Clone, Copy, PartialEq, Eq)]
pub enum ConfigSource {
    CliOverride,
    WalkUp,
    Global,
}

/// The result of a successful config load.
#[derive(Debug)]
pub struct Loaded {
    pub config: Config,
    /// Absolute path of the file that was parsed.
    pub config_path: String,
    /// Directory containing `config_path`: the default watch root when the
    /// config was discovered by walking up, so the watcher is anchored at
    /// the project root rather than the subdirectory of the invocation.
    pub config_dir: String,
    /// How the config was located.
    pub source: ConfigSource,
}

} // verus!
