//! The command-line options, as plain data.
//!
//! Argument parsing itself is an external concern; this is the shape the
//! options take once parsed.

use vstd::prelude::*;
use crate::packages::PackageState;

verus! {

#[derive(Debug, Clone, PartialEq, Eq)]
pub struct Opts {
    /// The path to the directory to search for Python files.
    pub base_directory: String,
    /// The package status to search for.
    pub package_status: PackageState,
    /// Whether to ignore hidden files and directories.
    pub ignore_hidden: bool,
    /// The maximum search depth, or `None` for no limit.
    pub max_depth: Option<usize>,
    /// The output format.
    pub output: OutputKind,
    /// The kind of dependency specification file to analyze.
    pub dep_type: DepType,
}

impl Opts {
    pub fn max_depth(&self) -> (r: Option<usize>)
        ensures
            r == self.max_depth,
    {
        self.max_depth
    }
}

#[derive(Debug, Clone, Copy, PartialEq, Eq)]
pub enum Env {
    Test,
    Dev,
    Prod,
}

#[derive(Debug, Clone, Copy, PartialEq, Eq)]
pub enum OutputKind {
    /// Human-readable output format.
    Human,
    /// JSON output format.
    Json,
}

#[derive(Debug, Clone, Copy, PartialEq, Eq)]
pub enum DepType {
    /// requirements.txt
    Pip,
    /// pyproject.toml
    Poetry,
}

} // verus!
