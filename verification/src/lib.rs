//! Audit of a Python project's declared dependencies.
//!
//! The library classifies every declared dependency and installed package of a
//! Python project as used, unused, untracked or uninstalled, from three
//! independently gathered inputs: the set of top-level modules the source
//! imports, the dependencies declared in the project manifest, and the
//! packages installed in the active environment.

pub mod analysis;
pub mod cli;
pub mod config;
pub mod dependencies;
pub mod exit_codes;
pub mod imports;
pub mod mappings;
pub mod output;
pub mod packages;
pub mod text;
