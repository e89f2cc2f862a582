//! Release planning and dependency-ordered batched publishing for a
//! multi-package workspace.
//!
//! The crate models a workspace of packages, decides for every package
//! whether a new version is needed and what that version is, orders the
//! packages so that no package is released before its intra-workspace
//! dependencies, groups them into dependency-safe batches, and tracks the
//! outcomes of the publish operations.  All I/O (manifests, git, the
//! registry's wire protocol) lives outside this crate; the logic here works
//! on plain values and is verified.

pub mod apply;
pub mod check;
pub mod claim;
pub mod cli;
pub mod config;
pub mod changed;
pub mod plan;
pub mod poll;
pub mod prdoc;
pub mod public_api;
pub mod registry;
pub mod shared;
pub mod status;
pub mod version;
pub mod workspace;

pub use version::SemVer;
