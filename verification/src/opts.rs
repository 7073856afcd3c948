//! Compiler options, as the driver hands them in.

use vstd::prelude::*;

verus! {

/// What the driver was asked to do.
#[derive(Debug, Clone, Copy, PartialEq, Eq, Structural)]
pub enum Action {
    Build,
    Check,
    Lsp,
}

/// How much the driver should say while doing it.
#[derive(Debug, Clone, Copy, PartialEq, Eq, Structural)]
pub enum Verbosity {
    Silent,
    Normal,
    Info,
    Debug,
}

/// The options one compilation runs under.
#[derive(Debug, Clone)]
pub struct Opts {
    pub project_file: String,
    pub action: Action,
    pub verbosity: Verbosity,
}

impl Default for Opts {
    /// By default: check the default project file, speaking normally.
    fn default() -> (r: Self)
        ensures
            r.action is Check,
            r.verbosity is Normal,
    {
        Opts {
            project_file: "Ploy.toml".to_owned(),
            action: Action::Check,
            verbosity: Verbosity::Normal,
        }
    }
}

impl Default for Verbosity {
    fn default() -> (r: Self)
        ensures
            r is Normal,
    {
        Verbosity::Normal
    }
}

} // verus!
