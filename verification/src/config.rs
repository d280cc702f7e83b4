//! The resolved configuration a scan runs under.

use vstd::prelude::*;
use crate::cli::{DepType, Env, OutputKind};
use crate::packages::PackageState;

verus! {

pub struct Config {
    /// The path to the directory to search for Python files.
    pub base_directory: String,
    /// The package status to search for.
    pub package_state: PackageState,
    /// The path to the dependency specification file.
    pub dep_spec_file: String,
    /// The kind of dependency specification file to analyze.
    pub dep_type: DepType,
    /// Whether to ignore hidden files and directories.
    pub ignore_hidden: bool,
    /// The maximum search depth, or `None` for no limit.
    pub max_depth: Option<usize>,
    /// The environment to run in.
    pub env: Env,
    /// The output format.
    pub output: OutputKind,
}

} // verus!
