//! Version-scoped staging: the rules that decide which lines of a manifest
//! belong to a version bump, how the staging index and the tree objects of the
//! resulting commit are put together, and what the commands print.
//!
//! Everything in this crate is a function from plain values to plain values.
//! Reading the environment, the object store and the network is left to the
//! caller.
//!
//! The commit of a version bump is made in five steps, each in a module of
//! its own:
//!
//! - `diff` takes the committed and the working content of a file and gives
//!   the content to stage: the committed content with the version-related
//!   lines of the working content.
//! - `index` stages that content at the path of the file, in an index that is
//!   always strictly sorted by path.
//! - `tree` lays out the tree objects of the index, one for each directory.
//! - `commit` says in which order blob, index, trees, commit and reference
//!   are written, and ends the run at the first failure.
//! - `paths` orders the paths, byte by byte.
//!
//! The other modules hold what the commands decide: `bump` and `version` the
//! version to go to, `version_update` and `manifest` the manifest,
//! `build_version` the sources of a build version, `github` the releases of
//! a repository, `current`, `badge`, `badges`, `pr_log` and `release_page`
//! what is given out, `common` and `text` what they share.

pub mod badge;
pub mod badges;
pub mod build_version;
pub mod bump;
pub mod commit;
pub mod common;
pub mod current;
pub mod diff;
pub mod github;
pub mod index;
pub mod manifest;
pub mod paths;
pub mod pr_log;
pub mod release_page;
pub mod text;
pub mod tree;
pub mod version;
pub mod version_update;
