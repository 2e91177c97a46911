//! Generates a build script (a Makefile) from a declarative build
//! description: a generic document tree is patched by textual
//! point-overrides, interpreted into a typed configuration, and the
//! configuration is mapped to the text of the build rules.

pub mod config;
pub mod node;
pub mod options;
pub mod override_yaml;
pub mod read_yaml;
