//! Dependency-resolution core of a small package manager: a version type with
//! numeric-segment ordering, a composable version-range algebra with
//! contradiction detection, a package catalog index, and a depth-first
//! dependency resolver with cycle detection and virtual-package aliasing.

pub mod strutil;
pub mod version;
pub mod pkg;
pub mod list;
pub mod depend;
pub mod resolver;
pub mod paths;
pub mod utils;
pub mod question;
pub mod project;
pub mod args;
