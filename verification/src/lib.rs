//! Reconciles a package-installation manifest against a catalog of
//! package-manager definitions: reads both out of their documents,
//! validates the manifest, and plans and steps through the commands that
//! bring each requested manager to its installed state. Running the
//! commands is left to the caller.

pub mod catalog;
pub mod definitions;
pub mod document;
pub mod expand;
pub mod locate;
pub mod manifest;
pub mod model;
pub mod plan;
pub mod report;
pub mod session;
pub mod tasks;
pub mod text;
pub mod validate;
