//! Settings of one session, as the command line hands them over.

use vstd::prelude::*;

verus! {

/// How observed changes are presented.
#[derive(Clone, Copy, Debug, PartialEq, Eq, Structural)]
pub enum Mode {
    TUI,
    Expand,
    Simple,
}

impl Default for Mode {
    fn default() -> (m: Self)
        ensures
            m == Mode::TUI,
    {
        Mode::TUI
    }
}

/// Which renderer computes the difference between two versions.
#[derive(Clone, Copy, Debug, PartialEq, Eq, Structural)]
pub enum DiffTool {
    Delta,
    Difft,
}

impl Default for DiffTool {
    fn default() -> (t: Self)
        ensures
            t == DiffTool::Difft,
    {
        DiffTool::Difft
    }
}

/// The settings of one session.
#[derive(Debug)]
pub struct App {
    /// Label query to filter on.
    pub selector: Option<String>,
    /// The namespace to watch, if one is given.
    pub namespace: Option<String>,
    /// Whether to watch the requested objects across all namespaces.
    pub all: bool,
    pub mode: Mode,
    pub diff_tool: DiffTool,
    /// Whether certificates are verified when talking to the cluster.
    pub use_tls: bool,
    /// Whether changes of managed fields are shown.
    pub include_managed_fields: bool,
    /// A directory in which every watched snapshot is stored.
    pub export: Option<String>,
    /// The resource to watch: its kind, its plural or one of its short names.
    pub resource: Option<String>,
    /// The name of a single object to watch.
    pub name: Option<String>,
}

} // verus!
