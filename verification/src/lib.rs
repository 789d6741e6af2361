//! Version propagation for multi-package workspaces.
//!
//! Given the manifests of a workspace and the set of files that changed since
//! a reference revision, the library decides which packages are affected and
//! stamps a new version onto them and onto the dependency entries that point
//! at them.

pub mod cargo_toml;
pub mod change_set;
pub mod options;
pub mod propagate;
pub mod resolver;
pub mod table;
pub mod text;
